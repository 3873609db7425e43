//! The decisions of the read-only HTTP surface: the screen in front of
//! the ad-hoc query endpoint — a query whose ASCII-lowercased text
//! contains any mutating-statement keyword is rejected before it
//! reaches the analytical engine — and the equality filter behind the
//! per-table filter route.

use crate::text::{ascii_lower, lower_bytes};
use vstd::prelude::*;
use vstd::slice::slice_to_vec;
use vstd::string::StringSliceAdditionalSpecFns;

verus! {

/// The forbidden statement keywords, by index: `insert`, `update`,
/// `delete`, `create`, `drop`, `alter`, `truncate`, `replace`.
pub open spec fn forbidden_keyword(k: int) -> Seq<u8> {
    if k == 0 {
        seq![105u8, 110, 115, 101, 114, 116]
    } else if k == 1 {
        seq![117u8, 112, 100, 97, 116, 101]
    } else if k == 2 {
        seq![100u8, 101, 108, 101, 116, 101]
    } else if k == 3 {
        seq![99u8, 114, 101, 97, 116, 101]
    } else if k == 4 {
        seq![100u8, 114, 111, 112]
    } else if k == 5 {
        seq![97u8, 108, 116, 101, 114]
    } else if k == 6 {
        seq![116u8, 114, 117, 110, 99, 97, 116, 101]
    } else {
        seq![114u8, 101, 112, 108, 97, 99, 101]
    }
}

/// A byte string occurs somewhere inside another.
pub open spec fn contains_subrange(h: Seq<u8>, n: Seq<u8>) -> bool {
    exists|i: int| 0 <= i && i + n.len() <= h.len() && #[trigger] h.subrange(i, i + n.len()) == n
}

/// A query is forbidden when its lowercased bytes contain one of the
/// mutating-statement keywords as a substring.
pub open spec fn spec_query_forbidden(q: Seq<u8>) -> bool {
    exists|k: int| 0 <= k < 8 && contains_subrange(lower_bytes(q), #[trigger] forbidden_keyword(k))
}

fn keyword_bytes(k: usize) -> (r: Vec<u8>)
    requires
        k < 8,
    ensures
        r@ == forbidden_keyword(k as int),
{
    let r: Vec<u8> = if k == 0 {
        vec![105, 110, 115, 101, 114, 116]
    } else if k == 1 {
        vec![117, 112, 100, 97, 116, 101]
    } else if k == 2 {
        vec![100, 101, 108, 101, 116, 101]
    } else if k == 3 {
        vec![99, 114, 101, 97, 116, 101]
    } else if k == 4 {
        vec![100, 114, 111, 112]
    } else if k == 5 {
        vec![97, 108, 116, 101, 114]
    } else if k == 6 {
        vec![116, 114, 117, 110, 99, 97, 116, 101]
    } else {
        vec![114, 101, 112, 108, 97, 99, 101]
    };
    proof {
        assert(r@ =~= forbidden_keyword(k as int));
    }
    r
}

fn match_at(h: &Vec<u8>, n: &Vec<u8>, i: usize) -> (r: bool)
    requires
        i + n@.len() <= h@.len(),
    ensures
        r == (h@.subrange(i as int, i as int + n@.len() as int) == n@),
{
    let hn = h.len();
    let mut m: usize = 0;
    while m < n.len()
        invariant
            i + n@.len() <= h@.len(),
            hn == h@.len(),
            m <= n@.len(),
            forall|t: int| 0 <= t < m ==> h@[i + t] == n@[t],
        decreases n@.len() - m,
    {
        if h[i + m] != n[m] {
            proof {
                assert(h@.subrange(i as int, i as int + n@.len() as int)[m as int] == h@[i + m]);
            }
            return false;
        }
        m = m + 1;
    }
    proof {
        assert(h@.subrange(i as int, i as int + n@.len() as int) =~= n@);
    }
    true
}

fn contains_needle(h: &Vec<u8>, n: &Vec<u8>) -> (r: bool)
    requires
        n@.len() >= 1,
    ensures
        r == contains_subrange(h@, n@),
{
    if n.len() > h.len() {
        return false;
    }
    let bound = h.len() - n.len();
    let mut i: usize = 0;
    while i <= bound
        invariant
            1 <= n@.len() <= h@.len(),
            bound == h@.len() - n@.len(),
            bound < usize::MAX,
            i <= bound + 1,
            forall|j: int|
                0 <= j < i ==> #[trigger] h@.subrange(j, j + n@.len() as int) != n@,
        decreases bound + 1 - i,
    {
        if match_at(h, n, i) {
            return true;
        }
        i = i + 1;
    }
    false
}

/// Whether an ad-hoc query must be rejected: its lowercased text holds
/// a mutating-statement keyword. Only rejection is decided here — a
/// query that passes may still fail to parse downstream.
pub fn is_query_forbidden(q: &str) -> (r: bool)
    ensures
        r == spec_query_forbidden(q.spec_bytes()),
{
    let bytes: Vec<u8> = slice_to_vec(q.as_bytes());
    let lowered = ascii_lower(&bytes);
    let mut k: usize = 0;
    while k < 8
        invariant
            lowered@ == lower_bytes(q.spec_bytes()),
            k <= 8,
            forall|t: int|
                0 <= t < k ==> !contains_subrange(
                    lower_bytes(q.spec_bytes()),
                    #[trigger] forbidden_keyword(t),
                ),
        decreases 8 - k,
    {
        let kw = keyword_bytes(k);
        if contains_needle(&lowered, &kw) {
            return true;
        }
        k = k + 1;
    }
    false
}


// ---------------------------------------------------------------------
// The equality filter of the per-table filter route. A row is a list
// of (column name, rendered value) pairs.
/// The row has a field with this name and this value.
pub open spec fn field_eq(row: Seq<(String, String)>, name: Seq<char>, value: Seq<char>) -> bool {
    exists|c: int| 0 <= c < row.len() && (#[trigger] row[c]).0@ == name && row[c].1@ == value
}

/// The row satisfies every filter: for each (name, value) filter it
/// has a field of that name holding that value.
pub open spec fn row_matches(row: Seq<(String, String)>, filters: Seq<(String, String)>) -> bool {
    forall|f: int|
        0 <= f < filters.len() ==> field_eq(row, (#[trigger] filters[f]).0@, filters[f].1@)
}

/// The indices of the matching rows, in row order.
pub open spec fn matching_indices(
    rendered: Seq<Vec<(String, String)>>,
    filters: Seq<(String, String)>,
) -> Seq<int>
    decreases rendered.len(),
{
    if rendered.len() == 0 {
        Seq::empty()
    } else {
        matching_indices(rendered.drop_last(), filters) + (if row_matches(
            rendered.last()@,
            filters,
        ) {
            seq![rendered.len() - 1]
        } else {
            Seq::empty()
        })
    }
}

/// A sequence cut to at most `n` elements.
pub open spec fn take_at_most(s: Seq<int>, n: int) -> Seq<int> {
    if n < s.len() {
        s.take(n)
    } else {
        s
    }
}

fn field_present(row: &Vec<(String, String)>, name: &String, value: &String) -> (r: bool)
    ensures
        r == field_eq(row@, name@, value@),
{
    let mut c: usize = 0;
    while c < row.len()
        invariant
            c <= row@.len(),
            forall|g: int| 0 <= g < c ==> !((#[trigger] row@[g]).0@ == name@ && row@[g].1@ == value@),
        decreases row@.len() - c,
    {
        if row[c].0 == *name && row[c].1 == *value {
            return true;
        }
        c = c + 1;
    }
    false
}

fn row_satisfies(row: &Vec<(String, String)>, filters: &Vec<(String, String)>) -> (r: bool)
    ensures
        r == row_matches(row@, filters@),
{
    let mut f: usize = 0;
    while f < filters.len()
        invariant
            f <= filters@.len(),
            forall|g: int|
                0 <= g < f ==> field_eq(row@, (#[trigger] filters@[g]).0@, filters@[g].1@),
        decreases filters@.len() - f,
    {
        if !field_present(row, &filters[f].0, &filters[f].1) {
            return false;
        }
        f = f + 1;
    }
    true
}

/// The rows the filter route returns: the indices of the rows whose
/// named fields equal every filter value, in row order, cut to `limit`
/// when one is given.
pub fn matching_rows(
    rendered: &Vec<Vec<(String, String)>>,
    filters: &Vec<(String, String)>,
    limit: Option<usize>,
) -> (r: Vec<usize>)
    ensures
        match limit {
            Option::Some(n) => r@.map_values(|u: usize| u as int) == take_at_most(
                matching_indices(rendered@, filters@),
                n as int,
            ),
            Option::None => r@.map_values(|u: usize| u as int) == matching_indices(
                rendered@,
                filters@,
            ),
        },
        forall|a: int| 0 <= a < r@.len() ==> (#[trigger] r@[a]) < rendered@.len(),
{
    let mut out: Vec<usize> = Vec::new();
    let mut i: usize = 0;
    while i < rendered.len()
        invariant
            i <= rendered@.len(),
            forall|a: int| 0 <= a < out@.len() ==> (#[trigger] out@[a]) < i,
            match limit {
                Option::Some(n) => out@.map_values(|u: usize| u as int) == take_at_most(
                    matching_indices(rendered@.subrange(0, i as int), filters@),
                    n as int,
                ),
                Option::None => out@.map_values(|u: usize| u as int) == matching_indices(
                    rendered@.subrange(0, i as int),
                    filters@,
                ),
            },
        decreases rendered@.len() - i,
    {
        let ghost pre = rendered@.subrange(0, i as int);
        let ghost cur = rendered@.subrange(0, i + 1 as int);
        let ghost mi = matching_indices(pre, filters@);
        proof {
            assert(cur.drop_last() =~= pre);
            assert(cur.last() == rendered@[i as int]);
        }
        let full = match limit {
            Option::Some(n) => out.len() >= n,
            Option::None => false,
        };
        if !full && row_satisfies(&rendered[i], filters) {
            let ghost pre_out = out@;
            out.push(i);
            proof {
                assert(out@.map_values(|u: usize| u as int) =~= pre_out.map_values(
                    |u: usize| u as int,
                ).push(i as int));
                assert(matching_indices(cur, filters@) =~= mi.push(i as int));
                match limit {
                    Option::Some(n) => {
                        assert(pre_out.len() < n);
                        assert(take_at_most(mi, n as int).len() == pre_out.len());
                        assert(mi.len() < n);
                        assert(take_at_most(mi, n as int) == mi);
                        assert(take_at_most(mi.push(i as int), n as int) =~= mi.push(i as int));
                    },
                    Option::None => {},
                }
            }
        } else {
            proof {
                if row_matches(rendered@[i as int]@, filters@) {
                    // the limit is reached: the cut stays where it is
                    assert(matching_indices(cur, filters@) =~= mi.push(i as int));
                    match limit {
                        Option::Some(n) => {
                            assert(out@.len() >= n);
                            assert(take_at_most(mi, n as int).len() >= n);
                            assert(mi.len() >= n);
                            assert(take_at_most(mi.push(i as int), n as int) =~= mi.push(
                                i as int,
                            ).take(n as int));
                            assert(mi.push(i as int).take(n as int) =~= take_at_most(
                                mi,
                                n as int,
                            ));
                        },
                        Option::None => {
                            assert(false);
                        },
                    }
                } else {
                    assert(matching_indices(cur, filters@) =~= mi);
                }
            }
        }
        i = i + 1;
    }
    proof {
        assert(rendered@.subrange(0, rendered@.len() as int) =~= rendered@);
    }
    out
}

} // verus!
