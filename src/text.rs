//! Text of the classic game: company names and column alignment.
use vstd::prelude::*;
use vstd::string::StringExecFns;

verus! {

/// The name of the company with index `co_num`.
pub open spec fn company_name_of(co_num: int) -> Seq<char> {
    if co_num == 0 {
        "ALTAIR STARWAYS"@
    } else if co_num == 1 {
        "BETELGEUSE, LTD."@
    } else if co_num == 2 {
        "CAPELLA FREIGHT CO."@
    } else if co_num == 3 {
        "DENEBOLA SHIPPERS"@
    } else {
        "ERIDANI EXPEDITERS"@
    }
}

/// Return the name of the company with index `co_num`.
pub fn company_name(co_num: usize) -> (name: &'static str)
    requires
        co_num < crate::rules::DEFAULT_MAX_COMPANY_COUNT,
    ensures
        name@ == company_name_of(co_num as int),
{
    if co_num == 0 {
        "ALTAIR STARWAYS"
    } else if co_num == 1 {
        "BETELGEUSE, LTD."
    } else if co_num == 2 {
        "CAPELLA FREIGHT CO."
    } else if co_num == 3 {
        "DENEBOLA SHIPPERS"
    } else {
        "ERIDANI EXPEDITERS"
    }
}

/// The letter that marks the cells of company `id` on the map: `A` for the first.
pub fn company_to_char(id: u32) -> (ch: char)
    requires
        id < crate::rules::DEFAULT_MAX_COMPANY_COUNT,
    ensures
        ch as u32 == 'A' as u32 + id,
{
    if id == 0 {
        'A'
    } else if id == 1 {
        'B'
    } else if id == 2 {
        'C'
    } else if id == 3 {
        'D'
    } else {
        'E'
    }
}

/// Spaces that move the cursor to column `n`, as BASIC's `TAB` does at the start
/// of a line: `n - 1` of them.
pub fn tab(n: usize) -> (s: String)
    requires
        n >= 1,
    ensures
        s@ == Seq::new((n - 1) as nat, |i: int| ' '),
{
    let mut s = String::from_str("");
    proof {
        reveal_strlit("");
        reveal_strlit(" ");
    }
    let mut i: usize = 1;
    while i < n
        invariant
            1 <= i <= n,
            s@ == Seq::new((i - 1) as nat, |k: int| ' '),
        decreases n - i,
    {
        s.append(" ");
        proof {
            reveal_strlit(" ");
            assert(s@ =~= Seq::new(i as nat, |k: int| ' '));
        }
        i = i + 1;
    }
    s
}

} // verus!
