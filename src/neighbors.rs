//! Analysis of the orthogonal neighbors of a map cell, scanned in the fixed
//! order North, South, East, West. Merge ties are broken by this order.
use crate::map::{MapCell, Point, StarMap};
use vstd::prelude::*;

verus! {

/// What a scan of some neighbor cells has found.
pub struct Tally {
    /// Empty space cells.
    pub spaces: nat,
    /// Star cells.
    pub stars: nat,
    /// Unaffiliated outposts, in scan order.
    pub outposts: Seq<Point>,
    /// Company cells, in scan order.
    pub companies: Seq<Point>,
    /// The distinct company ids among them, in order of first appearance.
    pub ids: Seq<u32>,
}

impl Tally {
    /// No star, outpost or company is adjacent.
    pub open spec fn only_space(self) -> bool {
        self.stars == 0 && self.outposts.len() == 0 && self.companies.len() == 0
    }

    /// At least one star or outpost is adjacent, and no company.
    pub open spec fn only_stars_outposts(self) -> bool {
        (self.stars > 0 || self.outposts.len() > 0) && self.companies.len() == 0
    }
}

/// The in-bounds orthogonal neighbors of row `r`, column `c`, in the order N, S, E, W.
pub open spec fn neighbor_points(m: StarMap, r: int, c: int) -> Seq<Point> {
    let north = if r > 0 {
        seq![Point((r - 1) as usize, c as usize)]
    } else {
        Seq::empty()
    };
    let south = if r + 1 < m.height {
        seq![Point((r + 1) as usize, c as usize)]
    } else {
        Seq::empty()
    };
    let east = if c + 1 < m.width {
        seq![Point(r as usize, (c + 1) as usize)]
    } else {
        Seq::empty()
    };
    let west = if c > 0 {
        seq![Point(r as usize, (c - 1) as usize)]
    } else {
        Seq::empty()
    };
    north + south + east + west
}

/// The cell of the map at point `p`.
pub open spec fn cell_at(m: StarMap, p: Point) -> MapCell {
    m.cell(p.0 as int, p.1 as int)
}

/// Scan `pts` in order and tally what their cells hold.
pub open spec fn tally(m: StarMap, pts: Seq<Point>) -> Tally
    decreases pts.len(),
{
    if pts.len() == 0 {
        Tally {
            spaces: 0,
            stars: 0,
            outposts: Seq::empty(),
            companies: Seq::empty(),
            ids: Seq::empty(),
        }
    } else {
        let t = tally(m, pts.drop_last());
        let q = pts.last();
        match cell_at(m, q) {
            MapCell::Space => Tally { spaces: t.spaces + 1, ..t },
            MapCell::Star => Tally { stars: t.stars + 1, ..t },
            MapCell::Outpost => Tally { outposts: t.outposts.push(q), ..t },
            MapCell::Company(id) => Tally {
                companies: t.companies.push(q),
                ids: if t.ids.contains(id) {
                    t.ids
                } else {
                    t.ids.push(id)
                },
                ..t
            },
        }
    }
}

/// The tally of the neighbors of row `r`, column `c`.
pub open spec fn neighbor_tally(m: StarMap, r: int, c: int) -> Tally {
    tally(m, neighbor_points(m, r, c))
}

/// Every neighbor lies on the map.
pub proof fn lemma_neighbors_in_bounds(m: StarMap, r: int, c: int)
    requires
        m.in_bounds(r, c),
    ensures
        neighbor_points(m, r, c).len() <= 4,
        forall|i: int|
            0 <= i < neighbor_points(m, r, c).len() ==> m.in_bounds(
                #[trigger] neighbor_points(m, r, c)[i].0 as int,
                neighbor_points(m, r, c)[i].1 as int,
            ),
{
}

/// What a tally holds: outposts are outpost cells, company points are company
/// cells whose ids are listed once each, and nothing else is listed.
pub proof fn lemma_tally(m: StarMap, pts: Seq<Point>)
    ensures
        tally(m, pts).spaces + tally(m, pts).stars + tally(m, pts).outposts.len() + tally(
            m,
            pts,
        ).companies.len() == pts.len(),
        tally(m, pts).ids.no_duplicates(),
        tally(m, pts).ids.len() <= tally(m, pts).companies.len(),
        tally(m, pts).companies.len() > 0 ==> tally(m, pts).ids.len() > 0,
        forall|q: Point| #[trigger]
            tally(m, pts).outposts.contains(q) ==> pts.contains(q) && cell_at(m, q)
                == MapCell::Outpost,
        forall|q: Point| #[trigger]
            tally(m, pts).companies.contains(q) ==> pts.contains(q) && cell_at(m, q)
                is Company && tally(m, pts).ids.contains(cell_at(m, q)->Company_0),
        forall|id: u32| #[trigger]
            tally(m, pts).ids.contains(id) ==> exists|q: Point| #[trigger]
                pts.contains(q) && cell_at(m, q) == MapCell::Company(id),
    decreases pts.len(),
{
    if pts.len() > 0 {
        let pre = pts.drop_last();
        let q = pts.last();
        lemma_tally(m, pre);
        assert forall|x: Point| pre.contains(x) implies pts.contains(x) by {
            let i = choose|i: int| 0 <= i < pre.len() && pre[i] == x;
            assert(pts[i] == x);
        }
        assert(pts.contains(q)) by {
            assert(pts[pts.len() - 1] == q);
        }
        let t = tally(m, pre);
        let u = tally(m, pts);
        match cell_at(m, q) {
            MapCell::Outpost => {
                assert forall|x: Point| #[trigger] u.outposts.contains(x) implies pts.contains(x)
                    && cell_at(m, x) == MapCell::Outpost by {
                    if x != q {
                        let i = choose|i: int| 0 <= i < u.outposts.len() && u.outposts[i] == x;
                        assert(t.outposts[i] == x);
                        assert(t.outposts.contains(x));
                        assert(pre.contains(x));
                    }
                }
            },
            MapCell::Company(id) => {
                if !t.ids.contains(id) {
                    assert forall|a: int, b: int|
                        0 <= a < u.ids.len() && 0 <= b < u.ids.len() && a != b implies u.ids[a]
                        != u.ids[b] by {
                        if a == t.ids.len() as int {
                            assert(t.ids.contains(t.ids[b]));
                        } else if b == t.ids.len() as int {
                            assert(t.ids.contains(t.ids[a]));
                        }
                    }
                }
                assert forall|i: u32| t.ids.contains(i) implies u.ids.contains(i) by {
                    let k = choose|k: int| 0 <= k < t.ids.len() && t.ids[k] == i;
                    assert(u.ids[k] == i);
                }
                assert(u.ids.contains(id)) by {
                    if !t.ids.contains(id) {
                        assert(u.ids[t.ids.len() as int] == id);
                    }
                }
                assert forall|x: Point| #[trigger] u.companies.contains(x) implies pts.contains(x)
                    && cell_at(m, x) is Company && u.ids.contains(cell_at(m, x)->Company_0) by {
                    if x != q {
                        let i = choose|i: int| 0 <= i < u.companies.len() && u.companies[i] == x;
                        assert(t.companies[i] == x);
                        assert(t.companies.contains(x));
                        assert(pre.contains(x));
                    }
                }
                assert forall|i: u32| #[trigger] u.ids.contains(i) implies exists|x: Point| #[trigger]
                    pts.contains(x) && cell_at(m, x) == MapCell::Company(i) by {
                    if !t.ids.contains(i) {
                        assert(pts.contains(q) && cell_at(m, q) == MapCell::Company(i));
                    }
                }
            },
            _ => {},
        }
    }
}

/// The result of scanning the neighbors of a cell.
#[derive(Debug)]
pub struct NeighborCounts {
    /// How many neighbors are empty space.
    pub spaces: usize,
    /// How many neighbors are stars.
    pub stars: usize,
    /// The neighboring unaffiliated outposts.
    pub outposts: Vec<Point>,
    /// The neighboring company cells.
    pub companies: Vec<Point>,
    /// The distinct neighboring company ids, in order of first appearance.
    pub company_ids: Vec<u32>,
    /// How many different companies are neighbors.
    pub discrete_companies: usize,
    /// True if no star, outpost or company is adjacent.
    pub only_space: bool,
    /// True if a star or outpost is adjacent, and no company.
    pub only_stars_outposts: bool,
}

impl NeighborCounts {
    /// The counts agree with the tally `t`.
    pub open spec fn matches(&self, t: Tally) -> bool {
        &&& self.spaces == t.spaces
        &&& self.stars == t.stars
        &&& self.outposts@ == t.outposts
        &&& self.companies@ == t.companies
        &&& self.company_ids@ == t.ids
        &&& self.discrete_companies == t.ids.len()
        &&& self.only_space == t.only_space()
        &&& self.only_stars_outposts == t.only_stars_outposts()
    }
}

/// True if `id` is in `v`.
fn contains_id(v: &Vec<u32>, id: u32) -> (b: bool)
    ensures
        b == v@.contains(id),
{
    let mut i: usize = 0;
    while i < v.len()
        invariant
            i <= v@.len(),
            forall|k: int| 0 <= k < i ==> v@[k] != id,
        decreases v@.len() - i,
    {
        if v[i] == id {
            return true;
        }
        i = i + 1;
    }
    false
}

/// The in-bounds neighbors of row `r`, column `c`, in the order N, S, E, W.
pub fn neighbor_list(m: &StarMap, r: usize, c: usize) -> (v: Vec<Point>)
    requires
        m.in_bounds(r as int, c as int),
    ensures
        v@ == neighbor_points(*m, r as int, c as int),
{
    let mut v: Vec<Point> = Vec::new();
    if r > 0 {
        v.push(Point(r - 1, c));
    }
    if r + 1 < m.height {
        v.push(Point(r + 1, c));
    }
    if c + 1 < m.width {
        v.push(Point(r, c + 1));
    }
    if c > 0 {
        v.push(Point(r, c - 1));
    }
    assert(v@ =~= neighbor_points(*m, r as int, c as int));
    v
}

/// Assess the neighbors of row `at_row`, column `at_col`.
pub fn neighbor_count(m: &StarMap, at_row: usize, at_col: usize) -> (n: NeighborCounts)
    requires
        m.wf(),
        m.in_bounds(at_row as int, at_col as int),
    ensures
        n.matches(neighbor_tally(*m, at_row as int, at_col as int)),
{
    let pts = neighbor_list(m, at_row, at_col);
    proof {
        lemma_neighbors_in_bounds(*m, at_row as int, at_col as int);
    }
    let mut spaces: usize = 0;
    let mut stars: usize = 0;
    let mut outposts: Vec<Point> = Vec::new();
    let mut companies: Vec<Point> = Vec::new();
    let mut company_ids: Vec<u32> = Vec::new();
    let mut i: usize = 0;
    while i < pts.len()
        invariant
            m.wf(),
            i <= pts@.len(),
            pts@.len() <= 4,
            forall|k: int|
                0 <= k < pts@.len() ==> m.in_bounds(#[trigger] pts@[k].0 as int, pts@[k].1 as int),
            spaces == tally(*m, pts@.take(i as int)).spaces,
            stars == tally(*m, pts@.take(i as int)).stars,
            outposts@ == tally(*m, pts@.take(i as int)).outposts,
            companies@ == tally(*m, pts@.take(i as int)).companies,
            company_ids@ == tally(*m, pts@.take(i as int)).ids,
            spaces + stars + outposts@.len() + companies@.len() == i,
        decreases pts@.len() - i,
    {
        proof {
            assert(pts@.take(i + 1).drop_last() =~= pts@.take(i as int));
            lemma_tally(*m, pts@.take(i as int));
        }
        let q = pts[i];
        match m.get(q.0, q.1) {
            MapCell::Space => {
                spaces = spaces + 1;
            },
            MapCell::Star => {
                stars = stars + 1;
            },
            MapCell::Outpost => {
                outposts.push(q);
            },
            MapCell::Company(id) => {
                companies.push(q);
                if !contains_id(&company_ids, id) {
                    company_ids.push(id);
                }
            },
        }
        i = i + 1;
    }
    proof {
        assert(pts@.take(i as int) =~= pts@);
    }
    let discrete_companies = company_ids.len();
    let only_space = stars == 0 && outposts.len() == 0 && companies.len() == 0;
    let only_stars_outposts = (stars > 0 || outposts.len() > 0) && companies.len() == 0;
    NeighborCounts {
        spaces,
        stars,
        outposts,
        companies,
        company_ids,
        discrete_companies,
        only_space,
        only_stars_outposts,
    }
}

} // verus!
