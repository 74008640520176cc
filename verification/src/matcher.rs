//! The executable matcher: it cuts a pattern and a path at their slashes and
//! walks the segments pairwise, as `crate::pattern` describes.

use crate::http::Method;
use crate::params::RouteParams;
use crate::pattern::bindings;
use crate::pattern::bound;
use crate::pattern::extracted;
use crate::pattern::is_catch_all;
use crate::pattern::is_param;
use crate::pattern::join;
use crate::pattern::key_method;
use crate::pattern::key_pattern;
use crate::pattern::lead;
use crate::pattern::literals_agree;
use crate::pattern::match_path;
use crate::pattern::matched;
use crate::pattern::param_name;
use crate::pattern::segments;
use crate::pattern::star;
use crate::text::begins_with;
use crate::text::chars_of;
use crate::text::same_str;
use crate::text::same_text;
use vstd::prelude::*;
use vstd::string::*;

verus! {

/// The texts that `spans` cut out of `text`, each span given by its first
/// index and the index after its last.
spec fn span_texts(text: Seq<char>, spans: Seq<(usize, usize)>) -> Seq<Seq<char>> {
    Seq::new(spans.len(), |i: int| text.subrange(spans[i].0 as int, spans[i].1 as int))
}

/// Whether `spans` lie one after the other in `text`, the first from `from`
/// on, each followed by a slash, so that the text after the last of them
/// begins at `next`.
spec fn chained(text: Seq<char>, from: int, spans: Seq<(usize, usize)>, next: int) -> bool {
    &&& spans.len() == 0 ==> next == from
    &&& spans.len() > 0 ==> spans[0].0 == from && next == spans.last().1 + 1
    &&& forall|k: int|
        0 <= k < spans.len() ==> from <= (#[trigger] spans[k]).0 <= spans[k].1 < text.len()
            && text[spans[k].1 as int] == '/'
    &&& forall|k: int, j: int|
        0 <= k && j == k + 1 && j < spans.len() ==> (#[trigger] spans[j]).0 == (
        #[trigger] spans[k]).1 + 1
}

/// Whether `spans` are the places of the segments of `text[from..]`: they lie
/// one after the other with one slash between neighbours, the first begins at
/// `from`, the last ends where the text ends, and they cut out the segments.
#[verifier::opaque]
spec fn cuts(text: Seq<char>, from: int, spans: Seq<(usize, usize)>) -> bool {
    &&& spans.len() >= 1
    &&& chained(text, from, spans.drop_last(), spans.last().0 as int)
    &&& spans.last().0 <= spans.last().1 == text.len()
    &&& span_texts(text, spans) == segments(text.skip(from))
}

/// A chain of spans grows by the span from `next` to a slash at `end`.
proof fn lemma_chain_grows(
    text: Seq<char>,
    from: int,
    spans: Seq<(usize, usize)>,
    next: usize,
    end: usize,
)
    requires
        chained(text, from, spans, next as int),
        next <= end < text.len(),
        text[end as int] == '/',
    ensures
        chained(text, from, spans.push((next, end)), end + 1),
{
    let grown = spans.push((next, end));
    assert forall|k: int| 0 <= k < grown.len() implies from <= (#[trigger] grown[k]).0
        <= grown[k].1 < text.len() && text[grown[k].1 as int] == '/' by {
        if k < spans.len() {
            assert(grown[k] == spans[k]);
        } else if spans.len() > 0 {
            assert(from <= spans.last().0);
        }
    }
    assert forall|k: int, j: int| 0 <= k && j == k + 1 && j < grown.len() implies (
    #[trigger] grown[j]).0 == (#[trigger] grown[k]).1 + 1 by {
        assert(grown[k] == spans[k]);
        if j < spans.len() {
            assert(grown[j] == spans[j]);
        }
    }
}

/// The places of the segments lie within the text, in order, and a slash
/// stands between each two neighbours.
proof fn lemma_cuts_in_order(text: Seq<char>, from: int, spans: Seq<(usize, usize)>)
    requires
        cuts(text, from, spans),
    ensures
        spans.len() >= 1,
        spans.len() == segments(text.skip(from)).len(),
        spans[0].0 == from,
        spans.last().1 == text.len(),
        forall|k: int|
            0 <= k < spans.len() ==> from <= (#[trigger] spans[k]).0 <= spans[k].1 <= text.len(),
        forall|k: int, j: int|
            0 <= k && j == k + 1 && j < spans.len() ==> (#[trigger] spans[j]).0 == (
            #[trigger] spans[k]).1 + 1 && text[spans[k].1 as int] == '/',
{
    reveal(cuts);
    let front = spans.drop_last();
    assert forall|k: int| 0 <= k < spans.len() implies from <= (#[trigger] spans[k]).0
        <= spans[k].1 <= text.len() by {
        if k < front.len() {
            assert(spans[k] == front[k]);
        } else if front.len() > 0 {
            assert(from <= front.last().0);
        }
    }
    assert forall|k: int, j: int| 0 <= k && j == k + 1 && j < spans.len() implies (
    #[trigger] spans[j]).0 == (#[trigger] spans[k]).1 + 1 && text[spans[k].1 as int] == '/' by {
        assert(spans[k] == front[k]);
        if j < front.len() {
            assert(spans[j] == front[j]);
        }
    }
    if front.len() > 0 {
        assert(spans[0] == front[0]);
    }
}

/// The segments of a text that ends in a slash: those of the text before the
/// slash, and an empty one.
proof fn lemma_segments_after_slash(s: Seq<char>)
    requires
        s.len() > 0,
        s.last() == '/',
    ensures
        segments(s) == segments(s.drop_last()).push(Seq::<char>::empty()),
{
}

/// The segments of a text that ends in another character: those of the text
/// before it, the last one longer by that character.
proof fn lemma_segments_after_other(s: Seq<char>)
    requires
        s.len() > 0,
        s.last() != '/',
    ensures
        segments(s) == segments(s.drop_last()).update(
            segments(s.drop_last()).len() - 1,
            segments(s.drop_last()).last().push(s.last()),
        ),
{
}

/// The places of the segments of `text[from..]`.
fn split(text: &Vec<char>, from: usize) -> (spans: Vec<(usize, usize)>)
    requires
        from <= text.len(),
    ensures
        cuts(text@, from as int, spans@),
{
    let n: usize = text.len();
    let ghost s = text@.skip(from as int);
    let mut spans: Vec<(usize, usize)> = Vec::new();
    let mut start: usize = from;
    let mut i: usize = from;
    proof {
        assert(s.take(0) =~= Seq::<char>::empty());
        assert(text@.subrange(from as int, from as int) =~= Seq::<char>::empty());
        assert(segments(s.take(0)) =~= span_texts(text@, spans@).push(
            text@.subrange(start as int, i as int),
        ));
    }
    while i < n
        invariant
            n == text.len(),
            s == text@.skip(from as int),
            from <= start <= i <= n,
            segments(s.take(i - from)) == span_texts(text@, spans@).push(
                text@.subrange(start as int, i as int),
            ),
            chained(text@, from as int, spans@, start as int),
        decreases n - i,
    {
        let ghost shorter = s.take(i - from);
        let ghost longer = s.take(i + 1 - from);
        let ghost done = span_texts(text@, spans@);
        let ghost open = text@.subrange(start as int, i as int);
        proof {
            assert(longer.drop_last() =~= shorter);
            assert(longer.last() == text@[i as int]);
        }
        if text[i] == '/' {
            proof {
                lemma_chain_grows(text@, from as int, spans@, start, i);
                lemma_segments_after_slash(longer);
            }
            spans.push((start, i));
            start = i + 1;
            proof {
                assert(span_texts(text@, spans@) =~= done.push(open));
                assert(text@.subrange(start as int, start as int) =~= Seq::<char>::empty());
            }
        } else {
            proof {
                lemma_segments_after_other(longer);
                assert(open.push(text@[i as int]) =~= text@.subrange(start as int, i + 1));
                assert(done.push(open).update(done.len() as int, open.push(text@[i as int]))
                    =~= done.push(text@.subrange(start as int, i + 1)));
            }
        }
        i = i + 1;
    }
    let ghost before = spans@;
    let ghost done = span_texts(text@, spans@);
    spans.push((start, n));
    proof {
        assert(s.take(n - from) =~= s);
        assert(span_texts(text@, spans@) =~= done.push(text@.subrange(start as int, n as int)));
        assert(spans@.drop_last() =~= before);
        reveal(cuts);
    }
    spans
}

/// The span at place `k` lies within the text and cuts out the segment at
/// place `k`.
proof fn lemma_span_is_segment(text: Seq<char>, from: int, spans: Seq<(usize, usize)>, k: int)
    requires
        cuts(text, from, spans),
        0 <= k < spans.len(),
    ensures
        spans.len() == segments(text.skip(from)).len(),
        from <= spans[k].0 <= spans[k].1 <= text.len(),
        segments(text.skip(from))[k] == text.subrange(spans[k].0 as int, spans[k].1 as int),
{
    lemma_cuts_in_order(text, from, spans);
    reveal(cuts);
    assert(span_texts(text, spans)[k] == text.subrange(spans[k].0 as int, spans[k].1 as int));
}

/// The text from the beginning of one segment to the end of a later one is
/// the segments between them, joined.
proof fn lemma_join_of_spans(text: Seq<char>, from: int, spans: Seq<(usize, usize)>, k: int, m: int)
    requires
        cuts(text, from, spans),
        0 <= k <= m < spans.len(),
    ensures
        spans[k].0 <= spans[m].1 <= text.len(),
        join(segments(text.skip(from)).subrange(k, m + 1)) == text.subrange(
            spans[k].0 as int,
            spans[m].1 as int,
        ),
    decreases m - k,
{
    let parts = segments(text.skip(from));
    let some = parts.subrange(k, m + 1);
    lemma_span_is_segment(text, from, spans, k);
    lemma_span_is_segment(text, from, spans, m);
    if m == k {
        assert(some[0] == parts[k]);
        assert(join(some) =~= text.subrange(spans[k].0 as int, spans[m].1 as int));
    } else {
        lemma_join_of_spans(text, from, spans, k, m - 1);
        lemma_cuts_in_order(text, from, spans);
        assert(some.drop_last() =~= parts.subrange(k, m));
        assert(some.last() == parts[m]);
        assert(spans[m].0 == spans[m - 1].1 + 1 && text[spans[m - 1].1 as int] == '/');
        assert(join(some) =~= text.subrange(spans[k].0 as int, spans[m].1 as int));
    }
}

/// What one more segment of the pattern adds to the bindings.
proof fn lemma_bindings_step(lead: Seq<Seq<char>>, path: Seq<Seq<char>>, i: int)
    requires
        0 <= i < lead.len(),
    ensures
        bindings(lead.take(i + 1), path) == if is_param(lead[i]) {
            bindings(lead.take(i), path).insert(param_name(lead[i]), path[i])
        } else {
            bindings(lead.take(i), path)
        },
{
    assert(lead.take(i + 1).drop_last() =~= lead.take(i));
    assert(lead.take(i + 1)[i] == lead[i]);
}

/// Literal segments that agree so far still agree with one more segment that
/// is a parameter or equals the path segment at its place.
proof fn lemma_literals_step(lead: Seq<Seq<char>>, path: Seq<Seq<char>>, i: int)
    requires
        0 <= i < lead.len(),
        literals_agree(lead.take(i), path),
        is_param(lead[i]) || lead[i] == path[i],
    ensures
        literals_agree(lead.take(i + 1), path),
{
    assert forall|k: int| 0 <= k < lead.take(i + 1).len() implies is_param(
        #[trigger] lead.take(i + 1)[k],
    ) || lead.take(i + 1)[k] == path[k] by {
        if k < i {
            assert(lead.take(i)[k] == lead.take(i + 1)[k]);
        }
    }
}

/// The characters `text[from..to]` as a string of their own.
fn piece(text: &str, from: usize, to: usize) -> (out: String)
    requires
        from <= to <= text@.len(),
    ensures
        out@ == text@.subrange(from as int, to as int),
{
    String::from_str(text.substring_char(from, to))
}

/// Whether the last segment of a pattern is `*`.
fn ends_in_star(pattern_chars: &Vec<char>, from: usize, spans: &Vec<(usize, usize)>) -> (out: bool)
    requires
        from <= pattern_chars.len(),
        cuts(pattern_chars@, from as int, spans@),
    ensures
        out == is_catch_all(segments(pattern_chars@.skip(from as int))),
{
    proof {
        lemma_cuts_in_order(pattern_chars@, from as int, spans@);
        lemma_span_is_segment(pattern_chars@, from as int, spans@, spans@.len() - 1);
    }
    let last: (usize, usize) = spans[spans.len() - 1];
    let out: bool = last.1 - last.0 == 1 && pattern_chars[last.0] == '*';
    proof {
        let p = segments(pattern_chars@.skip(from as int));
        if out {
            assert(p.last() =~= star());
        } else if p.last().len() == 1 {
            assert(p.last()[0] != star()[0]);
        }
    }
    out
}

/// Matches `path` against the pattern `pattern[from..]`. With `strict` the
/// literal segments must agree; without it they are not compared, and the
/// result is never `None`.
fn capture(
    pattern: &str,
    pattern_chars: &Vec<char>,
    from: usize,
    path: &str,
    path_chars: &Vec<char>,
    strict: bool,
) -> (out: Option<RouteParams>)
    requires
        pattern_chars@ == pattern@,
        path_chars@ == path@,
        from <= pattern_chars.len(),
    ensures
        strict ==> bound(out) == match_path(pattern@.skip(from as int), path@),
        !strict ==> bound(out) == Some(extracted(pattern@.skip(from as int), path@)),
{
    let pattern_spans = split(pattern_chars, from);
    let path_spans = split(path_chars, 0);
    let ghost p = segments(pattern@.skip(from as int));
    let ghost q = segments(path@);
    proof {
        assert(path@.skip(0) =~= path@);
        lemma_cuts_in_order(pattern@, from as int, pattern_spans@);
        lemma_cuts_in_order(path@, 0, path_spans@);
    }
    let count: usize = pattern_spans.len();
    let catch_all: bool = ends_in_star(pattern_chars, from, &pattern_spans);
    let paired: usize = if catch_all {
        count - 1
    } else {
        count
    };
    let fits: bool = if catch_all {
        path_spans.len() >= count
    } else {
        path_spans.len() == count
    };
    if !fits {
        return if strict {
            None
        } else {
            Some(RouteParams::new())
        };
    }
    let ghost l = lead(p);
    let mut params = RouteParams::new();
    let mut i: usize = 0;
    proof {
        assert(l.take(0) =~= Seq::<Seq<char>>::empty());
    }
    while i < paired
        invariant
            pattern_chars@ == pattern@,
            path_chars@ == path@,
            p == segments(pattern@.skip(from as int)),
            q == segments(path@),
            l == lead(p),
            cuts(pattern@, from as int, pattern_spans@),
            cuts(path@, 0, path_spans@),
            path@.skip(0) == path@,
            paired == l.len(),
            paired <= p.len(),
            p.len() == pattern_spans@.len(),
            paired <= path_spans@.len(),
            i <= paired,
            params@ == bindings(l.take(i as int), q),
            strict ==> literals_agree(l.take(i as int), q),
        decreases paired - i,
    {
        proof {
            lemma_span_is_segment(pattern@, from as int, pattern_spans@, i as int);
            lemma_span_is_segment(path@, 0, path_spans@, i as int);
            lemma_bindings_step(l, q, i as int);
            assert(l[i as int] == p[i as int]);
        }
        let a: usize = pattern_spans[i].0;
        let b: usize = pattern_spans[i].1;
        let c: usize = path_spans[i].0;
        let d: usize = path_spans[i].1;
        let ghost segment = l[i as int];
        if b - a >= 2 && pattern_chars[a] == '{' && pattern_chars[b - 1] == '}' {
            let name = piece(pattern, a + 1, b - 1);
            let value = piece(path, c, d);
            proof {
                assert(is_param(segment));
                assert(name@ =~= param_name(segment));
                if strict {
                    lemma_literals_step(l, q, i as int);
                }
            }
            params.insert(name, value);
        } else {
            proof {
                assert(!is_param(segment));
            }
            if strict {
                if !same_text(pattern_chars, a, b, path_chars, c, d) {
                    proof {
                        assert(!is_param(l[i as int]) && l[i as int] != q[i as int]);
                        assert(!literals_agree(l, q));
                    }
                    return None;
                }
                proof {
                    lemma_literals_step(l, q, i as int);
                }
            }
        }
        i = i + 1;
    }
    proof {
        assert(l.take(paired as int) =~= l);
    }
    if catch_all {
        proof {
            let m = path_spans@.len() - 1;
            lemma_span_is_segment(path@, 0, path_spans@, paired as int);
            lemma_join_of_spans(path@, 0, path_spans@, paired as int, m);
            assert(q.skip(paired as int) =~= q.subrange(paired as int, m + 1));
            assert(path@.subrange(path_spans@[paired as int].0 as int, path@.len() as int)
                == join(q.skip(paired as int)));
        }
        let rest_from: usize = path_spans[paired].0;
        let value = piece(path, rest_from, path_chars.len());
        let name = String::from_str("*");
        proof {
            reveal_strlit("*");
            assert(name@ =~= star());
        }
        params.insert(name, value);
    }
    Some(params)
}

/// The method in front of a route key, with the number of characters that it
/// and the space after it take.
fn key_prefix(key: &Vec<char>) -> (out: Option<(Method, usize)>)
    ensures
        match key_method(key@) {
            Some(m) => out == Some((m, (m.token().len() + 1) as usize)) && m.token().len() + 1
                <= key@.len(),
            None => out is None,
        },
{
    proof {
        reveal_strlit("GET ");
        reveal_strlit("GET");
        reveal_strlit("POST ");
        reveal_strlit("POST");
        reveal_strlit("PUT ");
        reveal_strlit("PUT");
        reveal_strlit("DELETE ");
        reveal_strlit("DELETE");
    }
    let get = chars_of("GET ");
    if begins_with(key, &get) {
        return Some((Method::Get, get.len()));
    }
    let post = chars_of("POST ");
    if begins_with(key, &post) {
        return Some((Method::Post, post.len()));
    }
    let put = chars_of("PUT ");
    if begins_with(key, &put) {
        return Some((Method::Put, put.len()));
    }
    let delete = chars_of("DELETE ");
    if begins_with(key, &delete) {
        return Some((Method::Delete, delete.len()));
    }
    None
}

/// Whether the pattern of the route key `key` is exactly `path`.
pub fn key_pattern_is(key: &str, path: &str) -> (out: bool)
    ensures
        out == (key_pattern(key@) == path@),
{
    let key_chars = chars_of(key);
    let path_chars = chars_of(path);
    let from: usize = match key_prefix(&key_chars) {
        Some((_, taken)) => taken,
        None => 0,
    };
    proof {
        assert(key@.skip(from as int) =~= key_chars@.subrange(
            from as int,
            key_chars@.len() as int,
        ));
        assert(key@.skip(0) =~= key@);
        assert(key_pattern(key@) == key@.skip(from as int));
        assert(path@ =~= path_chars@.subrange(0, path_chars@.len() as int));
    }
    same_text(&key_chars, from, key_chars.len(), &path_chars, 0, path_chars.len())
}

/// Matches a request against a route key. Where the key begins with one of
/// `GET`, `POST`, `PUT`, `DELETE` and a space, the request must be of that
/// method, and what follows the space is the pattern; otherwise the whole key
/// is the pattern and any method will do. The path matches the pattern where
/// both have as many segments and every literal segment of the pattern equals
/// the path segment at its place; the result then binds each `{name}` of the
/// pattern to the path segment at its place. A pattern that ends in `*` also
/// matches longer paths and binds the rest of the path under `*`.
pub fn match_route_pattern(pattern: &str, path: &str, method: &str) -> (out: Option<RouteParams>)
    ensures
        bound(out) == matched(pattern@, path@, method@),
{
    let pattern_chars = chars_of(pattern);
    let path_chars = chars_of(path);
    match key_prefix(&pattern_chars) {
        Some((m, taken)) => {
            if same_str(m.as_str(), method) {
                capture(pattern, &pattern_chars, taken, path, &path_chars, true)
            } else {
                None
            }
        },
        None => {
            proof {
                assert(pattern@.skip(0) =~= pattern@);
            }
            capture(pattern, &pattern_chars, 0, path, &path_chars, true)
        },
    }
}

/// The parameters that `route_pattern` picks out of `actual_path`: each
/// `{name}` of the pattern bound to the path segment at its place, and for a
/// pattern that ends in `*` the rest of the path under `*`. Literal segments
/// are not compared. A path with another number of segments than the pattern
/// asks for gives no parameters.
pub fn extract_path_params(route_pattern: &str, actual_path: &str) -> (out: RouteParams)
    ensures
        out@ == extracted(route_pattern@, actual_path@),
{
    let pattern_chars = chars_of(route_pattern);
    let path_chars = chars_of(actual_path);
    proof {
        assert(route_pattern@.skip(0) =~= route_pattern@);
    }
    match capture(route_pattern, &pattern_chars, 0, actual_path, &path_chars, false) {
        Some(params) => params,
        None => RouteParams::new(),
    }
}

} // verus!
