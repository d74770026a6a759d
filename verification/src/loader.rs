//! Load-time overrides of table sizes.

use vstd::prelude::*;

use crate::args;
use crate::args::parse_max_entries;

verus! {

/// How many tables can be resized.
pub const OVERRIDES: usize = 7;

/// The name of the `i`-th resizable table.
pub open spec fn table_name(i: int) -> Seq<char> {
    if i == 0 {
        "CONNTRACK"@
    } else if i == 1 {
        "ROUTES"@
    } else if i == 2 {
        "INTERFACES"@
    } else if i == 3 {
        "MAGLEV"@
    } else if i == 4 {
        "NAT"@
    } else if i == 5 {
        "LB"@
    } else {
        "PORT_META"@
    }
}

/// The environment variable that resizes the `i`-th resizable table.
pub open spec fn variable_name(i: int) -> Seq<char> {
    if i == 0 {
        "XDP_DP_CONNTRACK_MAX"@
    } else if i == 1 {
        "XDP_DP_ROUTES_MAX"@
    } else if i == 2 {
        "XDP_DP_INTERFACES_MAX"@
    } else if i == 3 {
        "XDP_DP_MAGLEV_MAX"@
    } else if i == 4 {
        "XDP_DP_NAT_MAX"@
    } else if i == 5 {
        "XDP_DP_LB_MAX"@
    } else {
        "XDP_DP_PORT_META_MAX"@
    }
}

/// The table and the environment variable of an override.
pub fn map_override(i: usize) -> (r: (&'static str, &'static str))
    requires
        i < OVERRIDES,
    ensures
        r.0@ == table_name(i as int),
        r.1@ == variable_name(i as int),
{
    if i == 0 {
        ("CONNTRACK", "XDP_DP_CONNTRACK_MAX")
    } else if i == 1 {
        ("ROUTES", "XDP_DP_ROUTES_MAX")
    } else if i == 2 {
        ("INTERFACES", "XDP_DP_INTERFACES_MAX")
    } else if i == 3 {
        ("MAGLEV", "XDP_DP_MAGLEV_MAX")
    } else if i == 4 {
        ("NAT", "XDP_DP_NAT_MAX")
    } else if i == 5 {
        ("LB", "XDP_DP_LB_MAX")
    } else {
        ("PORT_META", "XDP_DP_PORT_META_MAX")
    }
}

/// What a variable says of its table's size.
#[derive(Copy, Clone, Eq, PartialEq, Structural, Debug)]
pub enum Size {
    /// The variable is not set: the size the table was compiled with.
    Default,
    Entries(u32),
    /// The variable is set to something that is no 32-bit number.
    Invalid,
}

/// Interpret the value of an override's variable.
pub fn table_size(value: Option<&str>) -> (r: Size)
    ensures
        match value {
            None => r == Size::Default,
            Some(s) => match args::number(s@, 10, u32::MAX as int) {
                Some(n) => r == Size::Entries(n as u32),
                None => r == Size::Invalid,
            },
        },
{
    match value {
        None => Size::Default,
        Some(s) => match parse_max_entries(s) {
            Some(n) => Size::Entries(n),
            None => Size::Invalid,
        },
    }
}

/// A table's variable is named after it: the table's name between a prefix and a suffix that are the same
/// for all. No two tables share a name.
pub proof fn law_variables_are_named_after_their_tables(i: int, j: int)
    requires
        0 <= i < 7,
        0 <= j < 7,
    ensures
        variable_name(i) == "XDP_DP_"@ + table_name(i) + "_MAX"@,
        i != j ==> table_name(i) != table_name(j),
{
    reveal_strlit("XDP_DP_");
    reveal_strlit("_MAX");
    reveal_strlit("CONNTRACK");
    reveal_strlit("ROUTES");
    reveal_strlit("INTERFACES");
    reveal_strlit("MAGLEV");
    reveal_strlit("NAT");
    reveal_strlit("LB");
    reveal_strlit("PORT_META");
    reveal_strlit("XDP_DP_CONNTRACK_MAX");
    reveal_strlit("XDP_DP_ROUTES_MAX");
    reveal_strlit("XDP_DP_INTERFACES_MAX");
    reveal_strlit("XDP_DP_MAGLEV_MAX");
    reveal_strlit("XDP_DP_NAT_MAX");
    reveal_strlit("XDP_DP_LB_MAX");
    reveal_strlit("XDP_DP_PORT_META_MAX");
    assert(variable_name(i) =~= "XDP_DP_"@ + table_name(i) + "_MAX"@);
    if i != j {
        assert(table_name(i).len() != table_name(j).len() || table_name(i)[0] != table_name(j)[0]);
    }
}

} // verus!
