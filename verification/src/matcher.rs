//! Matching a request path against a route pattern.
//!
//! Path and pattern are cut at every `/`. They match when they have the same
//! number of segments and each segment of the pattern either is a parameter
//! (it begins with `:`) or equals the path's segment at that place. A
//! parameter binds its name, the segment without the `:`, to the path's
//! segment. There is no wildcard, no prefix match, and a trailing `/` counts
//! as one more, empty, segment.

use crate::strmap::{
    Pair, StringMap, distinct_keys, is_last_write, lemma_map_of_len, lemma_put_all, map_of, put_all,
    writes_key,
};
use crate::text::{split, split_text, texts};
use vstd::prelude::*;

verus! {

/// The segments of a path or of a pattern.
pub open spec fn segments(path: Seq<char>) -> Seq<Seq<char>> {
    split(path, '/')
}

/// Whether a segment of a pattern is a parameter.
pub open spec fn is_param(segment: Seq<char>) -> bool {
    segment.len() > 0 && segment[0] == ':'
}

/// The name of a parameter: the segment after its `:`.
pub open spec fn param_name(segment: Seq<char>) -> Seq<char> {
    segment.subrange(1, segment.len() as int)
}

/// Whether a segment of a path is accepted by a segment of a pattern.
pub open spec fn fits(path_segment: Seq<char>, pattern_segment: Seq<char>) -> bool {
    is_param(pattern_segment) || path_segment == pattern_segment
}

/// Whether the segments `ps` of a path are accepted by the segments `rs` of
/// a pattern, place by place.
pub open spec fn segments_fit(ps: Seq<Seq<char>>, rs: Seq<Seq<char>>) -> bool {
    ps.len() == rs.len() && forall|i: int| 0 <= i < rs.len() ==> fits(#[trigger] ps[i], rs[i])
}

/// What each segment of a pattern writes: a parameter binds its name to the
/// path's segment at its place, every other segment writes nothing.
pub open spec fn segment_writes(ps: Seq<Seq<char>>, rs: Seq<Seq<char>>) -> Seq<Option<Pair>> {
    Seq::new(
        rs.len(),
        |i: int|
            if is_param(rs[i]) {
                Some((param_name(rs[i]), ps[i]))
            } else {
                None
            },
    )
}

/// The bindings that the first `n` segments give, written in order: a name
/// that comes twice keeps the place of its first binding and the value of
/// its last.
pub open spec fn bound_pairs(ps: Seq<Seq<char>>, rs: Seq<Seq<char>>, n: int) -> Seq<Pair> {
    put_all(segment_writes(ps, rs), n)
}

/// The result of matching `path` against `pattern`: the bindings in the
/// order of their names' first occurrence, or `None` if they do not match.
pub open spec fn match_pairs(path: Seq<char>, pattern: Seq<char>) -> Option<Seq<Pair>> {
    let ps = segments(path);
    let rs = segments(pattern);
    if segments_fit(ps, rs) {
        Some(bound_pairs(ps, rs, rs.len() as int))
    } else {
        None
    }
}

/// The result of matching `path` against `pattern`: the map from parameter
/// names to the path's segments, or `None` if they do not match.
pub open spec fn match_path(path: Seq<char>, pattern: Seq<char>) -> Option<Map<Seq<char>, Seq<char>>> {
    match match_pairs(path, pattern) {
        Some(pairs) => Some(map_of(pairs)),
        None => None,
    }
}

/// Whether some parameter among the first `n` segments of `rs` is called
/// `name`.
pub open spec fn names_param(rs: Seq<Seq<char>>, n: int, name: Seq<char>) -> bool {
    exists|i: int| 0 <= i < n && is_param(#[trigger] rs[i]) && param_name(rs[i]) == name
}

/// Whether the parameter at place `i` is the last one of its name among the
/// first `n` segments of `rs`.
pub open spec fn last_of_name(rs: Seq<Seq<char>>, n: int, i: int) -> bool {
    0 <= i < n && is_param(rs[i]) && forall|j: int|
        i < j < n && is_param(#[trigger] rs[j]) ==> param_name(rs[j]) != param_name(rs[i])
}

/// What the first `n` segments bind: the names are those of the parameters,
/// no name stands twice, and each name has the path's segment at the place
/// where the name stands last.
pub proof fn lemma_bound_pairs(ps: Seq<Seq<char>>, rs: Seq<Seq<char>>, n: int)
    requires
        0 <= n <= rs.len(),
        ps.len() == rs.len(),
    ensures
        distinct_keys(bound_pairs(ps, rs, n)),
        forall|name: Seq<char>| #[trigger]
            map_of(bound_pairs(ps, rs, n)).contains_key(name) <==> names_param(rs, n, name),
        forall|i: int| #[trigger]
            last_of_name(rs, n, i) ==> map_of(bound_pairs(ps, rs, n))[param_name(rs[i])] == ps[i],
{
    let writes = segment_writes(ps, rs);
    lemma_put_all(writes, n);
    assert forall|name: Seq<char>| writes_key(writes, n, name) <==> names_param(rs, n, name) by {
        if writes_key(writes, n, name) {
            let i = choose|i: int|
                0 <= i < n && (#[trigger] writes[i]) is Some && writes[i].unwrap().0 == name;
            assert(is_param(rs[i]) && param_name(rs[i]) == name);
        }
        if names_param(rs, n, name) {
            let i = choose|i: int|
                0 <= i < n && is_param(#[trigger] rs[i]) && param_name(rs[i]) == name;
            assert(writes[i] is Some && writes[i].unwrap().0 == name);
        }
    }
    assert forall|i: int| #[trigger] last_of_name(rs, n, i) implies is_last_write(writes, n, i) by {
        assert forall|j: int| i < j < n && (#[trigger] writes[j]) is Some implies writes[j].unwrap().0
            != writes[i].unwrap().0 by {
            assert(is_param(rs[j]));
        }
    }
}

/// Paths and patterns of different segment counts never match.
pub proof fn lemma_match_needs_equal_count(path: Seq<char>, pattern: Seq<char>)
    requires
        segments(path).len() != segments(pattern).len(),
    ensures
        match_path(path, pattern) is None,
{
}

/// For a path and a pattern of equal segment count: they match exactly when
/// every segment of the pattern that is no parameter equals the path's
/// segment at its place; and the match then binds exactly the names of the
/// pattern's parameters, each to the path's segment at the place where the
/// name stands last.
pub proof fn lemma_match_binds_exactly(path: Seq<char>, pattern: Seq<char>)
    requires
        segments(path).len() == segments(pattern).len(),
    ensures
        match_path(path, pattern) is Some <==> forall|i: int|
            0 <= i < segments(pattern).len() && !is_param(#[trigger] segments(pattern)[i])
                ==> segments(path)[i] == segments(pattern)[i],
        match_path(path, pattern) matches Some(bound) ==> {
            &&& bound.dom().finite()
            &&& forall|name: Seq<char>| #[trigger]
                bound.contains_key(name) <==> names_param(
                    segments(pattern),
                    segments(pattern).len() as int,
                    name,
                )
            &&& forall|i: int| #[trigger]
                last_of_name(segments(pattern), segments(pattern).len() as int, i) ==> bound[param_name(
                    segments(pattern)[i],
                )] == segments(path)[i]
        },
{
    let ps = segments(path);
    let rs = segments(pattern);
    lemma_bound_pairs(ps, rs, rs.len() as int);
    lemma_map_of_len(bound_pairs(ps, rs, rs.len() as int));
    if forall|i: int| 0 <= i < rs.len() && !is_param(#[trigger] rs[i]) ==> ps[i] == rs[i] {
        assert forall|i: int| 0 <= i < rs.len() implies fits(#[trigger] ps[i], rs[i]) by {
            if !is_param(rs[i]) {
                assert(ps[i] == rs[i]);
            }
        }
    }
    if segments_fit(ps, rs) {
        assert forall|i: int| 0 <= i < rs.len() && !is_param(#[trigger] rs[i]) implies ps[i]
            == rs[i] by {
            assert(fits(ps[i], rs[i]));
        }
    }
}

/// Whether `segment` is a parameter; see `is_param`.
fn segment_is_param(segment: &str) -> (b: bool)
    ensures
        b == is_param(segment@),
{
    !segment.is_empty() && segment.get_char(0) == ':'
}

/// Matches `path` against `pattern`; see `match_path`.
pub fn match_route(path: &str, pattern: &str) -> (found: Option<StringMap>)
    ensures
        match found {
            Some(bound) => match_pairs(path@, pattern@) == Some(bound.pairs()) && match_path(
                path@,
                pattern@,
            ) == Some(bound@),
            None => match_path(path@, pattern@) is None,
        },
{
    let ps = split_text(path, '/');
    let rs = split_text(pattern, '/');
    if ps.len() != rs.len() {
        return None;
    }
    let n: usize = rs.len();
    let mut bound = StringMap::new();
    let mut i: usize = 0;
    while i < n
        invariant
            n == rs@.len(),
            ps@.len() == rs@.len(),
            texts(ps@) == segments(path@),
            texts(rs@) == segments(pattern@),
            i <= n,
            bound.pairs() == bound_pairs(segments(path@), segments(pattern@), i as int),
            forall|j: int|
                0 <= j < i ==> fits(#[trigger] segments(path@)[j], segments(pattern@)[j]),
        decreases n - i,
    {
        assert(texts(ps@)[i as int] == ps@[i as int]@);
        assert(texts(rs@)[i as int] == rs@[i as int]@);
        let segment: &str = rs[i].as_str();
        if segment_is_param(segment) {
            let name = segment.substring_char(1, segment.unicode_len()).to_owned();
            bound.insert(name, ps[i].clone());
        } else if !(ps[i] == rs[i]) {
            assert(!fits(segments(path@)[i as int], segments(pattern@)[i as int]));
            return None;
        }
        i += 1;
    }
    Some(bound)
}

} // verus!
