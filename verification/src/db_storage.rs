//! SQL text for the collection database.

use vstd::prelude::*;
use crate::text::{replace, replace_all};

verus! {

/// A string as an SQL literal: in single quotes, each single quote inside doubled.
pub open spec fn sql_quoted(s: Seq<char>) -> Seq<char> {
    seq!['\''] + replace_all(s, seq!['\''], seq!['\'', '\'']) + seq!['\'']
}

pub fn quote_sql_string(s: &str) -> (quoted: String)
    ensures
        quoted@ == sql_quoted(s@),
{
    proof {
        reveal_strlit("'");
        reveal_strlit("''");
        assert("'"@ =~= seq!['\'']);
        assert("''"@ =~= seq!['\'', '\'']);
    }
    let inner = replace(s, "'", "''");
    let mut out = String::from_str("'");
    out.append(inner.as_str());
    out.append("'");
    assert(out@ =~= sql_quoted(s@));
    out
}

} // verus!
