//! Path patterns and the rule that matches a request path against one.
//!
//! A pattern is a path whose segments, the pieces between its slashes, are
//! either literal text or a parameter written `{name}`. A literal segment
//! matches only itself; a parameter matches any one segment and binds it under
//! its name. A pattern whose last segment is `*` also matches every longer
//! path, and binds what is left of the path under the name `*`.
//!
//! A route key may carry a method in front of its pattern, as in
//! `GET /users/{id}`; such a key matches requests of that method only.

use crate::http::Method;
use crate::params::Bindings;
use crate::params::RouteParams;
use vstd::prelude::*;

verus! {

/// The segments of `s`: the pieces into which its slashes cut it. A text
/// without a slash is one segment, the empty text too; `n` slashes give `n + 1`
/// segments, some of which may be empty.
pub open spec fn segments(s: Seq<char>) -> Seq<Seq<char>>
    decreases s.len(),
{
    if s.len() == 0 {
        seq![Seq::<char>::empty()]
    } else {
        let before = segments(s.drop_last());
        if s.last() == '/' {
            before.push(Seq::<char>::empty())
        } else {
            before.update(before.len() - 1, before.last().push(s.last()))
        }
    }
}

/// The text that has `parts` as its segments: the parts in order, with one
/// slash between neighbours.
pub open spec fn join(parts: Seq<Seq<char>>) -> Seq<char>
    decreases parts.len(),
{
    if parts.len() == 0 {
        Seq::<char>::empty()
    } else if parts.len() == 1 {
        parts[0]
    } else {
        join(parts.drop_last()) + seq!['/'] + parts.last()
    }
}

/// Whether `s` holds no slash.
pub open spec fn slash_free(s: Seq<char>) -> bool {
    forall|i: int| 0 <= i < s.len() ==> s[i] != '/'
}

/// Whether a pattern segment is a parameter: text wrapped in `{` and `}`.
pub open spec fn is_param(segment: Seq<char>) -> bool {
    segment.len() >= 2 && segment.first() == '{' && segment.last() == '}'
}

/// The name of a parameter segment: what stands between its braces.
pub open spec fn param_name(segment: Seq<char>) -> Seq<char> {
    segment.subrange(1, segment.len() - 1)
}

/// The segment `*`, which is also the name under which a catch-all binds.
pub open spec fn star() -> Seq<char> {
    seq!['*']
}

/// Whether a pattern ends in the segment `*`.
pub open spec fn is_catch_all(pattern: Seq<Seq<char>>) -> bool {
    pattern.len() >= 1 && pattern.last() == star()
}

/// The segments of a pattern that are matched one to one against the path: all
/// of them, but for a trailing `*`.
pub open spec fn lead(pattern: Seq<Seq<char>>) -> Seq<Seq<char>> {
    if is_catch_all(pattern) {
        pattern.drop_last()
    } else {
        pattern
    }
}

/// Whether a path has the number of segments that the pattern asks for: as
/// many as the pattern, or at least as many where the pattern ends in `*`.
pub open spec fn shape_fits(pattern: Seq<Seq<char>>, path: Seq<Seq<char>>) -> bool {
    if is_catch_all(pattern) {
        path.len() >= pattern.len()
    } else {
        path.len() == pattern.len()
    }
}

/// Whether every literal segment among `lead` equals the path segment at its
/// place.
pub open spec fn literals_agree(lead: Seq<Seq<char>>, path: Seq<Seq<char>>) -> bool {
    forall|i: int| 0 <= i < lead.len() ==> is_param(#[trigger] lead[i]) || lead[i] == path[i]
}

/// What the parameters among `lead` bind: each one its name to the path
/// segment at its place. Where a name occurs twice, the later segment wins.
pub open spec fn bindings(lead: Seq<Seq<char>>, path: Seq<Seq<char>>) -> Bindings
    decreases lead.len(),
{
    if lead.len() == 0 {
        Bindings::empty()
    } else {
        let before = bindings(lead.drop_last(), path);
        let i = lead.len() - 1;
        if is_param(lead[i]) {
            before.insert(param_name(lead[i]), path[i])
        } else {
            before
        }
    }
}

/// Everything a pattern binds on a path whose shape fits: its parameters, and
/// for a trailing `*` the rest of the path under the name `*`.
pub open spec fn captures(pattern: Seq<Seq<char>>, path: Seq<Seq<char>>) -> Bindings {
    let named = bindings(lead(pattern), path);
    if is_catch_all(pattern) {
        named.insert(star(), join(path.skip(pattern.len() - 1)))
    } else {
        named
    }
}

/// The parameters that `pattern` picks out of `path`, literal segments not
/// compared: nothing where the shape of the path does not fit.
pub open spec fn extracted(pattern: Seq<char>, path: Seq<char>) -> Bindings {
    if shape_fits(segments(pattern), segments(path)) {
        captures(segments(pattern), segments(path))
    } else {
        Bindings::empty()
    }
}

/// The result of matching `path` against `pattern`: the bound parameters
/// where the shape fits and every literal segment agrees, nothing otherwise.
pub open spec fn match_path(pattern: Seq<char>, path: Seq<char>) -> Option<Bindings> {
    if shape_fits(segments(pattern), segments(path)) && literals_agree(
        lead(segments(pattern)),
        segments(path),
    ) {
        Some(captures(segments(pattern), segments(path)))
    } else {
        None
    }
}

/// The method that a route key carries in front of its pattern, if it begins
/// with one of `GET`, `POST`, `PUT`, `DELETE` and a space.
pub open spec fn key_method(key: Seq<char>) -> Option<Method> {
    if "GET "@.is_prefix_of(key) {
        Some(Method::Get)
    } else if "POST "@.is_prefix_of(key) {
        Some(Method::Post)
    } else if "PUT "@.is_prefix_of(key) {
        Some(Method::Put)
    } else if "DELETE "@.is_prefix_of(key) {
        Some(Method::Delete)
    } else {
        None
    }
}

/// The pattern of a route key: the key without its method and the space, or
/// the whole key where it carries no method.
pub open spec fn key_pattern(key: Seq<char>) -> Seq<char> {
    match key_method(key) {
        Some(m) => key.skip(m.token().len() as int + 1),
        None => key,
    }
}

/// The result of matching a request against a route key: nothing where the key
/// carries another method than the request's, and the result of matching the
/// path against the key's pattern otherwise.
pub open spec fn matched(key: Seq<char>, path: Seq<char>, method: Seq<char>) -> Option<Bindings> {
    match key_method(key) {
        Some(m) => if m.token() == method {
            match_path(key_pattern(key), path)
        } else {
            None
        },
        None => match_path(key, path),
    }
}

/// The mathematical content of an optional set of parameters.
pub open spec fn bound(params: Option<RouteParams>) -> Option<Bindings> {
    match params {
        Some(p) => Some(p@),
        None => None,
    }
}

/// A text has at least one segment.
pub proof fn lemma_segments_exist(s: Seq<char>)
    ensures
        segments(s).len() >= 1,
    decreases s.len(),
{
    if s.len() > 0 {
        lemma_segments_exist(s.drop_last());
    }
}

/// No segment of a text holds a slash.
pub proof fn lemma_segments_hold_no_slash(s: Seq<char>)
    ensures
        forall|i: int| 0 <= i < segments(s).len() ==> slash_free(#[trigger] segments(s)[i]),
    decreases s.len(),
{
    if s.len() > 0 {
        lemma_segments_exist(s.drop_last());
        lemma_segments_hold_no_slash(s.drop_last());
    }
}

/// Joining the segments of a text gives the text back.
pub proof fn lemma_join_of_segments(s: Seq<char>)
    ensures
        join(segments(s)) == s,
    decreases s.len(),
{
    if s.len() == 0 {
        assert(join(segments(s)) =~= s);
    } else {
        let t = s.drop_last();
        let before = segments(t);
        lemma_segments_exist(t);
        lemma_join_of_segments(t);
        if s.last() == '/' {
            let all = before.push(Seq::<char>::empty());
            assert(all.drop_last() =~= before);
            assert(join(all) =~= t + seq!['/']);
            assert(t + seq!['/'] =~= s);
        } else {
            lemma_join_grows_with_last(before, s.last());
            assert(t.push(s.last()) =~= s);
        }
    }
}

/// A character added to the last part is added to the end of the joined text.
proof fn lemma_join_grows_with_last(parts: Seq<Seq<char>>, c: char)
    requires
        parts.len() >= 1,
    ensures
        join(parts.update(parts.len() - 1, parts.last().push(c))) == join(parts).push(c),
{
    let grown = parts.update(parts.len() - 1, parts.last().push(c));
    if parts.len() == 1 {
        assert(join(grown) =~= join(parts).push(c));
    } else {
        assert(grown.drop_last() =~= parts.drop_last());
        assert(join(grown) =~= join(parts).push(c));
    }
}

/// The segments of a joined text are the parts that were joined, where there
/// is at least one part and none holds a slash. Together with
/// `lemma_join_of_segments` this says that cutting at the slashes and joining
/// with slashes undo each other.
pub proof fn lemma_segments_of_join(parts: Seq<Seq<char>>)
    requires
        parts.len() >= 1,
        forall|i: int| 0 <= i < parts.len() ==> slash_free(#[trigger] parts[i]),
    ensures
        segments(join(parts)) == parts,
    decreases parts.len(), parts.last().len(),
{
    let last = parts.last();
    if last.len() > 0 {
        let shorter = parts.update(parts.len() - 1, last.drop_last());
        assert(shorter.last().len() < last.len());
        assert forall|i: int| 0 <= i < shorter.len() implies slash_free(#[trigger] shorter[i]) by {
            if i < parts.len() - 1 {
                assert(shorter[i] == parts[i]);
            } else {
                assert(slash_free(parts[i]));
            }
        }
        lemma_segments_of_join(shorter);
        lemma_join_grows_with_last(shorter, last.last());
        assert(shorter.update(shorter.len() - 1, shorter.last().push(last.last())) =~= parts) by {
            assert(last.drop_last().push(last.last()) =~= last);
        }
        let text = join(parts);
        assert(text == join(shorter).push(last.last()));
        assert(text.drop_last() =~= join(shorter));
        assert(slash_free(last));
        assert(text.last() == last[last.len() - 1]);
    } else if parts.len() == 1 {
        assert(join(parts) =~= Seq::<char>::empty());
        assert(segments(join(parts)) =~= parts);
    } else {
        let front = parts.drop_last();
        assert forall|i: int| 0 <= i < front.len() implies slash_free(#[trigger] front[i]) by {
            assert(front[i] == parts[i]);
        }
        lemma_segments_of_join(front);
        let text = join(parts);
        assert(text =~= join(front).push('/'));
        assert(text.drop_last() =~= join(front));
        assert(text.last() == '/');
        assert(last =~= Seq::<char>::empty());
        assert(front.push(Seq::<char>::empty()) =~= parts);
    }
}

/// A pattern matches a path of as many segments whose segments equal the
/// pattern's literal segments, each at its place, and then binds every
/// parameter of the pattern to the path segment at its place. The parameter at
/// place `i` stands for any one of them; it is taken to be the last to bind its
/// name, since a later binding of the same name replaces an earlier one.
pub proof fn lemma_match_binds_parameters(pattern: Seq<char>, path: Seq<char>, i: int)
    requires
        segments(pattern).len() == segments(path).len(),
        forall|k: int|
            0 <= k < segments(pattern).len() ==> is_param(#[trigger] segments(pattern)[k])
                || segments(pattern)[k] == segments(path)[k],
        0 <= i < segments(pattern).len(),
        is_param(segments(pattern)[i]),
        forall|k: int|
            i < k < segments(pattern).len() && is_param(#[trigger] segments(pattern)[k])
                ==> param_name(segments(pattern)[k]) != param_name(segments(pattern)[i]),
        is_catch_all(segments(pattern)) ==> param_name(segments(pattern)[i]) != star(),
    ensures
        match_path(pattern, path) is Some,
        match_path(pattern, path)->0.contains_key(param_name(segments(pattern)[i])),
        match_path(pattern, path)->0[param_name(segments(pattern)[i])] == segments(path)[i],
{
    let p = segments(pattern);
    let q = segments(path);
    lemma_match_succeeds(pattern, path);
    assert(!is_param(star()));
    lemma_bindings_keep_last(lead(p), q, i);
}

/// A pattern matches every path of as many segments whose segments equal the
/// pattern's literal segments, each at its place.
pub proof fn lemma_match_succeeds(pattern: Seq<char>, path: Seq<char>)
    requires
        segments(pattern).len() == segments(path).len(),
        forall|k: int|
            0 <= k < segments(pattern).len() ==> is_param(#[trigger] segments(pattern)[k])
                || segments(pattern)[k] == segments(path)[k],
    ensures
        match_path(pattern, path) == Some(captures(segments(pattern), segments(path))),
{
    let p = segments(pattern);
    let q = segments(path);
    assert forall|k: int| 0 <= k < lead(p).len() implies is_param(#[trigger] lead(p)[k]) || lead(
        p,
    )[k] == q[k] by {
        assert(lead(p)[k] == p[k]);
    }
}

/// Among `lead`, the last parameter to bind a name decides what the name is
/// bound to.
proof fn lemma_bindings_keep_last(lead: Seq<Seq<char>>, path: Seq<Seq<char>>, i: int)
    requires
        0 <= i < lead.len(),
        is_param(lead[i]),
        forall|k: int|
            i < k < lead.len() && is_param(#[trigger] lead[k]) ==> param_name(lead[k])
                != param_name(lead[i]),
    ensures
        bindings(lead, path).contains_key(param_name(lead[i])),
        bindings(lead, path)[param_name(lead[i])] == path[i],
    decreases lead.len(),
{
    if i < lead.len() - 1 {
        let front = lead.drop_last();
        assert(front[i] == lead[i]);
        assert forall|k: int| i < k < front.len() && is_param(#[trigger] front[k]) implies param_name(
            front[k],
        ) != param_name(front[i]) by {
            assert(front[k] == lead[k]);
        }
        lemma_bindings_keep_last(front, path, i);
    }
}

/// A text without a slash that stands in a path at the place of a parameter
/// is bound under the parameter's name as it stands, and so read back
/// unchanged. The pattern and the path are given by their segments; the
/// parameter at place `i` is taken to be the last to bind its name.
pub proof fn lemma_value_round_trip(
    pattern_parts: Seq<Seq<char>>,
    path_parts: Seq<Seq<char>>,
    i: int,
)
    requires
        pattern_parts.len() == path_parts.len(),
        forall|k: int| 0 <= k < pattern_parts.len() ==> slash_free(#[trigger] pattern_parts[k]),
        forall|k: int| 0 <= k < path_parts.len() ==> slash_free(#[trigger] path_parts[k]),
        forall|k: int|
            0 <= k < pattern_parts.len() ==> is_param(#[trigger] pattern_parts[k])
                || pattern_parts[k] == path_parts[k],
        0 <= i < pattern_parts.len(),
        is_param(pattern_parts[i]),
        forall|k: int|
            i < k < pattern_parts.len() && is_param(#[trigger] pattern_parts[k]) ==> param_name(
                pattern_parts[k],
            ) != param_name(pattern_parts[i]),
        is_catch_all(pattern_parts) ==> param_name(pattern_parts[i]) != star(),
    ensures
        match_path(join(pattern_parts), join(path_parts)) is Some,
        match_path(join(pattern_parts), join(path_parts))->0.contains_key(
            param_name(pattern_parts[i]),
        ),
        match_path(join(pattern_parts), join(path_parts))->0[param_name(pattern_parts[i])]
            == path_parts[i],
{
    lemma_segments_of_join(pattern_parts);
    lemma_segments_of_join(path_parts);
    lemma_match_binds_parameters(join(pattern_parts), join(path_parts), i);
}

/// A pattern matches no path with another number of segments, whatever the
/// segments hold; the one exception is a pattern that ends in `*`, which is
/// meant to match longer paths.
pub proof fn lemma_other_length_never_matches(pattern: Seq<char>, path: Seq<char>)
    requires
        segments(pattern).len() != segments(path).len(),
        !(is_catch_all(segments(pattern)) && segments(path).len() > segments(pattern).len()),
    ensures
        match_path(pattern, path) is None,
{
}

/// A key with a method matches no request of another method, whatever its
/// path.
pub proof fn lemma_other_method_never_matches(key: Seq<char>, path: Seq<char>, method: Seq<char>)
    requires
        key_method(key) matches Some(m) && m.token() != method,
    ensures
        matched(key, path, method) is None,
{
}

/// Where a pattern matches, it binds what `extracted` picks out of the path.
pub proof fn lemma_match_binds_what_is_extracted(pattern: Seq<char>, path: Seq<char>)
    requires
        match_path(pattern, path) is Some,
    ensures
        match_path(pattern, path) == Some(extracted(pattern, path)),
{
}

} // verus!
