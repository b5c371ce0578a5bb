//! Spell correction for a mistyped subcommand: the closest known subcommand
//! by edit distance, unless the unrecognized text is purely numeric.

use vstd::prelude::*;
use vstd::string::StrSliceExecFns;

verus! {

/// What strsim's Damerau-Levenshtein distance returns on two given texts.
pub uninterp spec fn damerau_levenshtein_of(a: Seq<char>, b: Seq<char>) -> nat;

/// Relies on strsim::damerau_levenshtein: the edit distance it returns is a
/// deterministic function of the two strings' characters alone.
#[verifier::external_body]
fn edit_distance(a: &str, b: &str) -> (r: usize)
    ensures
        r as nat == damerau_levenshtein_of(a@, b@),
{
    strsim::damerau_levenshtein(a, b)
}

/// Whether a character counts as numeric.
pub uninterp spec fn is_numeric_char(c: char) -> bool;

/// Relies on char::is_numeric: whether a character is numeric is a
/// deterministic Unicode property of the character alone.
#[verifier::external_body]
fn char_is_numeric(c: char) -> (r: bool)
    ensures
        r == is_numeric_char(c),
{
    c.is_numeric()
}

/// Every character of the text is numeric; an empty text counts as numeric.
pub open spec fn all_numeric(s: Seq<char>) -> bool {
    forall|i: int| 0 <= i < s.len() ==> is_numeric_char(s[i])
}

/// The known subcommand at each position of the fixed list.
pub open spec fn subcommand_view(i: int) -> Seq<char> {
    if i == 0 {
        "install"@
    } else if i == 1 {
        "new"@
    } else if i == 2 {
        "build"@
    } else if i == 3 {
        "dump_ir"@
    } else if i == 4 {
        "dump_ast"@
    } else {
        "repl"@
    }
}

/// How many known subcommands there are.
pub open spec fn subcommand_count() -> int {
    6
}

/// The edit distance from the given text to each known subcommand, in list
/// order.
pub open spec fn distances_of(other: Seq<char>) -> Seq<nat> {
    Seq::new(subcommand_count() as nat, |i: int| damerau_levenshtein_of(other, subcommand_view(i)))
}

/// Position `i` holds the sequence's minimum, and every earlier position
/// holds something strictly larger: the first minimum.
pub open spec fn is_first_min(d: Seq<nat>, i: int) -> bool {
    &&& 0 <= i < d.len()
    &&& forall|j: int| 0 <= j < d.len() ==> d[i] <= d[j]
    &&& forall|j: int| 0 <= j < i ==> d[j] > d[i]
}

/// Whether the whole text is numeric.
fn is_numeric_text(s: &str) -> (r: bool)
    ensures
        r == all_numeric(s@),
{
    let len = s.unicode_len();
    let mut i: usize = 0;
    while i < len
        invariant
            0 <= i <= len,
            len == s@.len(),
            forall|j: int| 0 <= j < i ==> is_numeric_char(s@[j]),
        decreases len - i,
    {
        if !char_is_numeric(s.get_char(i)) {
            return false;
        }
        i += 1;
    }
    true
}

/// The position of the first minimum of a non-empty list of distances.
fn first_min_index(d: &Vec<usize>) -> (i: usize)
    requires
        d@.len() > 0,
    ensures
        0 <= i < d@.len(),
        forall|j: int| 0 <= j < d@.len() ==> d@[i as int] <= d@[j],
        forall|j: int| 0 <= j < i as int ==> d@[j] > d@[i as int],
{
    let mut best: usize = 0;
    let mut j: usize = 1;
    while j < d.len()
        invariant
            1 <= j <= d@.len(),
            0 <= best < j,
            forall|k: int| 0 <= k < j ==> d@[best as int] <= d@[k],
            forall|k: int| 0 <= k < best ==> d@[k] > d@[best as int],
        decreases d@.len() - j,
    {
        if d[j] < d[best] {
            best = j;
        }
        j += 1;
    }
    best
}

/// What to report for an unrecognized subcommand: `None` when the text is
/// purely numeric (plain non-existence), otherwise the known subcommand
/// closest to it by edit distance, the first of the list on a tie.
pub fn suggest_subcommand(other: &str) -> (r: Option<&'static str>)
    ensures
        (r is None) == all_numeric(other@),
        r matches Some(s) ==> exists|i: int|
            #[trigger] subcommand_view(i) == s@ && is_first_min(distances_of(other@), i),
{
    if is_numeric_text(other) {
        return None;
    }
    let mut d: Vec<usize> = Vec::new();
    d.push(edit_distance(other, "install"));
    d.push(edit_distance(other, "new"));
    d.push(edit_distance(other, "build"));
    d.push(edit_distance(other, "dump_ir"));
    d.push(edit_distance(other, "dump_ast"));
    d.push(edit_distance(other, "repl"));
    let ghost gd = distances_of(other@);
    proof {
        assert forall|k: int| 0 <= k < 6 implies d@[k] as nat == gd[k] by {
            assert(gd[k] == damerau_levenshtein_of(other@, subcommand_view(k)));
            if k == 0 {
                assert(d@[k] as nat == damerau_levenshtein_of(other@, "install"@));
            } else if k == 1 {
                assert(d@[k] as nat == damerau_levenshtein_of(other@, "new"@));
            } else if k == 2 {
                assert(d@[k] as nat == damerau_levenshtein_of(other@, "build"@));
            } else if k == 3 {
                assert(d@[k] as nat == damerau_levenshtein_of(other@, "dump_ir"@));
            } else if k == 4 {
                assert(d@[k] as nat == damerau_levenshtein_of(other@, "dump_ast"@));
            } else {
                assert(d@[k] as nat == damerau_levenshtein_of(other@, "repl"@));
            }
        }
    }
    let idx = first_min_index(&d);
    proof {
        assert forall|j: int| 0 <= j < gd.len() implies gd[idx as int] <= gd[j] by {
            assert(d@[idx as int] <= d@[j]);
        }
        assert forall|j: int| 0 <= j < idx as int implies gd[j] > gd[idx as int] by {
            assert(d@[j] > d@[idx as int]);
        }
        assert(is_first_min(gd, idx as int));
    }
    let name: &'static str = if idx == 0 {
        "install"
    } else if idx == 1 {
        "new"
    } else if idx == 2 {
        "build"
    } else if idx == 3 {
        "dump_ir"
    } else if idx == 4 {
        "dump_ast"
    } else {
        "repl"
    };
    proof {
        assert(subcommand_view(idx as int) == name@);
    }
    Some(name)
}

} // verus!
