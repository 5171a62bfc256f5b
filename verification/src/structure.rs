//! How encoded elements lie in a token sequence.

use crate::designspace::each;
use crate::encode::{concat, element};
use crate::markup::{children, close_of, name_at, named, Span, TokenView};
use vstd::prelude::*;

verus! {

/// `ts` holds the tokens `e` from position `p` on.
pub open spec fn holds(ts: Seq<TokenView>, p: int, e: Seq<TokenView>) -> bool {
    &&& 0 <= p
    &&& p + e.len() <= ts.len()
    &&& forall|j: int| 0 <= j < e.len() ==> ts[p + j] == #[trigger] e[j]
}

/// The content of an element: complete elements and text, nothing else.
pub open spec fn is_content(c: Seq<TokenView>) -> bool {
    children(c, 0, c.len() as int) is Some
}

/// A closing token found inside a part is found in the whole, too: where more
/// elements are open around the part, the search goes on behind it with one
/// of them closed.
pub proof fn lemma_close_inside(
    c: Seq<TokenView>,
    i: int,
    d: nat,
    ts: Seq<TokenView>,
    o: int,
    k: nat,
)
    requires
        holds(ts, o, c),
        0 <= i,
        close_of(c, i, d) is Some,
    ensures
        i <= close_of(c, i, d)->0 < c.len(),
        close_of(ts, o + i, d + k) == if k == 0 {
            Some(o + close_of(c, i, d)->0)
        } else {
            close_of(ts, o + close_of(c, i, d)->0 + 1, (k - 1) as nat)
        },
    decreases c.len() - i,
{
    assert(ts[o + i] == c[i]);
    match c[i] {
        TokenView::Open { .. } => {
            lemma_close_inside(c, i + 1, d + 1, ts, o, k);
        },
        TokenView::Close { .. } => {
            if d > 0 {
                lemma_close_inside(c, i + 1, (d - 1) as nat, ts, o, k);
            }
        },
        TokenView::Text { .. } => {
            lemma_close_inside(c, i + 1, d, ts, o, k);
        },
    }
}

/// The search for a closing token passes over content.
pub proof fn lemma_content_is_skipped(
    c: Seq<TokenView>,
    a: int,
    ts: Seq<TokenView>,
    o: int,
    k: nat,
)
    requires
        holds(ts, o, c),
        0 <= a <= c.len(),
        children(c, a, c.len() as int) is Some,
    ensures
        close_of(ts, o + a, k) == close_of(ts, o + c.len(), k),
    decreases c.len() - a,
{
    if a < c.len() {
        assert(ts[o + a] == c[a]);
        match c[a] {
            TokenView::Open { .. } => {
                let cc = close_of(c, a + 1, 0)->0;
                lemma_close_inside(c, a + 1, 0, ts, o, k + 1);
                lemma_content_is_skipped(c, cc + 1, ts, o, k);
            },
            TokenView::Close { .. } => {},
            TokenView::Text { .. } => {
                lemma_content_is_skipped(c, a + 1, ts, o, k);
            },
        }
    }
}

/// An element that a sequence holds starts with its opening token, goes on
/// with its content, and is closed by its own closing token.
pub proof fn lemma_element_closes(
    ts: Seq<TokenView>,
    p: int,
    name: Seq<char>,
    attrs: Seq<(Seq<char>, Seq<char>)>,
    content: Seq<TokenView>,
)
    requires
        holds(ts, p, element(name, attrs, content)),
        is_content(content),
    ensures
        ts[p] == (TokenView::Open { name, attributes: attrs }),
        holds(ts, p + 1, content),
        close_of(ts, p + 1, 0) == Some(p + 1 + content.len()),
{
    let e = element(name, attrs, content);
    assert(e.len() == content.len() + 2);
    assert(ts[p + 0] == e[0]);
    assert forall|j: int| 0 <= j < content.len() implies ts[p + 1 + j] == #[trigger] content[j] by {
        assert(e[j + 1] == content[j]);
        assert(ts[p + (j + 1)] == e[j + 1]);
    }
    lemma_content_is_skipped(content, 0, ts, p + 1, 0);
    let q = e.len() - 1;
    assert(e[q] == (TokenView::Close { name }));
    assert(ts[p + q] == e[q]);
}

/// The children of a range are those of its first part, then those of the
/// rest.
pub proof fn lemma_children_split(ts: Seq<TokenView>, a: int, m: int, b: int)
    requires
        0 <= a <= m <= b <= ts.len(),
        children(ts, a, m) is Some,
        children(ts, m, b) is Some,
    ensures
        children(ts, a, b) == Some(children(ts, a, m)->0 + children(ts, m, b)->0),
    decreases m - a,
{
    let rest = children(ts, m, b)->0;
    if a == m {
        assert(Seq::<Span>::empty() + rest =~= rest);
    } else {
        match ts[a] {
            TokenView::Open { .. } => {
                let c = close_of(ts, a + 1, 0)->0;
                lemma_children_split(ts, c + 1, m, b);
                let s = seq![Span { open: a as usize, close: c as usize }];
                let r1 = children(ts, c + 1, m)->0;
                assert(s + (r1 + rest) =~= (s + r1) + rest);
            },
            TokenView::Close { .. } => {},
            TokenView::Text { .. } => {
                lemma_children_split(ts, a + 1, m, b);
            },
        }
    }
}

/// The range of an element holds one child: the element.
pub proof fn lemma_children_of_element(
    ts: Seq<TokenView>,
    p: int,
    name: Seq<char>,
    attrs: Seq<(Seq<char>, Seq<char>)>,
    content: Seq<TokenView>,
)
    requires
        holds(ts, p, element(name, attrs, content)),
        is_content(content),
    ensures
        children(ts, p, p + content.len() + 2) == Some(
            seq![Span { open: p as usize, close: (p + content.len() + 1) as usize }],
        ),
{
    lemma_element_closes(ts, p, name, attrs, content);
    let s = seq![Span { open: p as usize, close: (p + content.len() + 1) as usize }];
    assert(element(name, attrs, content).len() == content.len() + 2);
    assert(children(ts, p + content.len() + 2, p + content.len() + 2) == Some(
        Seq::<Span>::empty(),
    ));
    assert(s + Seq::<Span>::empty() =~= s);
}

/// Children found in a part are found in the whole, at their places there.
pub proof fn lemma_children_inside(c: Seq<TokenView>, a: int, ts: Seq<TokenView>, o: int)
    requires
        holds(ts, o, c),
        0 <= a <= c.len(),
        children(c, a, c.len() as int) is Some,
    ensures
        children(ts, o + a, o + c.len()) is Some,
        children(ts, o + a, o + c.len())->0.len() == children(c, a, c.len() as int)->0.len(),
        o + c.len() <= usize::MAX ==> forall|j: int|
            0 <= j < children(c, a, c.len() as int)->0.len() ==> {
                let inner = #[trigger] children(c, a, c.len() as int)->0[j];
                let outer = children(ts, o + a, o + c.len())->0[j];
                &&& a <= inner.open < inner.close < c.len()
                &&& outer.open as int == o + inner.open
                &&& outer.close as int == o + inner.close
            },
    decreases c.len() - a,
{
    if a < c.len() {
        assert(ts[o + a] == c[a]);
        match c[a] {
            TokenView::Open { .. } => {
                let cc = close_of(c, a + 1, 0)->0;
                lemma_close_inside(c, a + 1, 0, ts, o, 0);
                lemma_children_inside(c, cc + 1, ts, o);
                let rest_in = children(c, cc + 1, c.len() as int)->0;
                let rest_out = children(ts, o + cc + 1, o + c.len())->0;
                let all_in = children(c, a, c.len() as int)->0;
                let all_out = children(ts, o + a, o + c.len())->0;
                assert(all_in =~= seq![Span { open: a as usize, close: cc as usize }] + rest_in);
                assert(all_out =~= seq![
                    Span { open: (o + a) as usize, close: (o + cc) as usize },
                ] + rest_out);
                if o + c.len() <= usize::MAX {
                    assert forall|j: int| 0 <= j < all_in.len() implies {
                        let inner = #[trigger] all_in[j];
                        let outer = all_out[j];
                        &&& a <= inner.open < inner.close < c.len()
                        &&& outer.open as int == o + inner.open
                        &&& outer.close as int == o + inner.close
                    } by {
                        if j > 0 {
                            assert(all_in[j] == rest_in[j - 1]);
                            assert(all_out[j] == rest_out[j - 1]);
                        }
                    }
                }
            },
            TokenView::Close { .. } => {},
            TokenView::Text { .. } => {
                lemma_children_inside(c, a + 1, ts, o);
            },
        }
    }
}

/// Content followed by content is content.
pub proof fn lemma_content_then_content(x: Seq<TokenView>, y: Seq<TokenView>)
    requires
        is_content(x),
        is_content(y),
    ensures
        is_content(x + y),
{
    let ts = x + y;
    assert(holds(ts, 0, x));
    assert(holds(ts, x.len() as int, y)) by {
        assert forall|j: int| 0 <= j < y.len() implies ts[x.len() + j] == #[trigger] y[j] by {}
    }
    lemma_children_inside(x, 0, ts, 0);
    lemma_children_inside(y, 0, ts, x.len() as int);
    lemma_children_split(ts, 0, x.len() as int, ts.len() as int);
}


/// `e` is one element called `name`: it starts with the opening token of
/// that name and ends with the closing token that matches it.
pub open spec fn shaped(e: Seq<TokenView>, name: Seq<char>) -> bool {
    &&& e.len() >= 2
    &&& name_at(e, 0) == name
    &&& e[0] is Open
    &&& close_of(e, 1, 0) == Some(e.len() - 1)
}

/// An element built around content has the shape of an element.
pub proof fn lemma_element_is_shaped(
    name: Seq<char>,
    attrs: Seq<(Seq<char>, Seq<char>)>,
    content: Seq<TokenView>,
)
    requires
        is_content(content),
    ensures
        shaped(element(name, attrs, content), name),
        element(name, attrs, content).len() == content.len() + 2,
{
    let e = element(name, attrs, content);
    assert(e.len() == content.len() + 2);
    lemma_element_closes(e, 0, name, attrs, content);
}

/// The range of a shaped element holds one child, the element, under its
/// name.
pub proof fn lemma_children_of_shaped(
    ts: Seq<TokenView>,
    p: int,
    e: Seq<TokenView>,
    name: Seq<char>,
)
    requires
        holds(ts, p, e),
        shaped(e, name),
    ensures
        children(ts, p, p + e.len()) == Some(
            seq![Span { open: p as usize, close: (p + e.len() - 1) as usize }],
        ),
        name_at(ts, p) == name,
        close_of(ts, p + 1, 0) == Some(p + e.len() - 1),
{
    assert(ts[p + 0] == e[0]);
    lemma_close_inside(e, 1, 0, ts, p, 0);
    let s = seq![Span { open: p as usize, close: (p + e.len() - 1) as usize }];
    assert(children(ts, p + e.len(), p + e.len()) == Some(Seq::<Span>::empty()));
    assert(s + Seq::<Span>::empty() =~= s);
}

/// A shaped element is content.
pub proof fn lemma_shaped_is_content(e: Seq<TokenView>, name: Seq<char>)
    requires
        shaped(e, name),
    ensures
        is_content(e),
{
    lemma_children_of_shaped(e, 0, e, name);
}

/// A list of shaped elements is content.
pub proof fn lemma_list_is_content<T>(
    items: Seq<T>,
    f: spec_fn(T) -> Seq<TokenView>,
    name: Seq<char>,
)
    requires
        forall|i: int| 0 <= i < items.len() ==> shaped(#[trigger] f(items[i]), name),
    ensures
        is_content(concat(items, f)),
    decreases items.len(),
{
    if items.len() > 0 {
        let init = items.drop_last();
        assert forall|i: int| 0 <= i < init.len() implies shaped(#[trigger] f(init[i]), name) by {
            assert(init[i] == items[i]);
        }
        lemma_list_is_content(init, f, name);
        assert(shaped(f(items[items.len() - 1]), name));
        lemma_shaped_is_content(f(items.last()), name);
        lemma_content_then_content(concat(init, f), f(items.last()));
    }
}

/// A list of encoded items that a sequence holds is found again: the range
/// holds one child for each item, each under the items' name, and where
/// each child decodes to its item, the children decode to the list.
pub proof fn lemma_list_round_trip<T>(
    ts: Seq<TokenView>,
    p: int,
    items: Seq<T>,
    f: spec_fn(T) -> Seq<TokenView>,
    g: spec_fn(Span) -> Option<T>,
    name: Seq<char>,
)
    requires
        holds(ts, p, concat(items, f)),
        p + concat(items, f).len() <= usize::MAX,
        forall|i: int| 0 <= i < items.len() ==> shaped(#[trigger] f(items[i]), name),
        forall|i: int, q: int|
            0 <= i < items.len() && #[trigger] holds(ts, q, f(items[i])) ==> g(
                Span { open: q as usize, close: (q + f(items[i]).len() - 1) as usize },
            ) == Some(items[i]),
    ensures
        children(ts, p, p + concat(items, f).len()) is Some,
        named(ts, children(ts, p, p + concat(items, f).len())->0, name) == children(
            ts,
            p,
            p + concat(items, f).len(),
        )->0,
        each(children(ts, p, p + concat(items, f).len())->0, g) == Some(items),
    decreases items.len(),
{
    if items.len() == 0 {
        assert(items =~= Seq::<T>::empty());
    } else {
        let init = items.drop_last();
        let last = items.last();
        let head = concat(init, f);
        let e = f(last);
        let q = p + head.len();
        assert(concat(items, f) == head + e);
        assert(holds(ts, p, head)) by {
            assert forall|j: int| 0 <= j < head.len() implies ts[p + j] == #[trigger] head[j] by {
                assert((head + e)[j] == head[j]);
            }
        }
        assert(holds(ts, q, e)) by {
            assert forall|j: int| 0 <= j < e.len() implies ts[q + j] == #[trigger] e[j] by {
                assert((head + e)[head.len() + j] == e[j]);
                assert(ts[p + (head.len() + j)] == (head + e)[head.len() + j]);
            }
        }
        assert forall|i: int| 0 <= i < init.len() implies shaped(#[trigger] f(init[i]), name) by {
            assert(init[i] == items[i]);
        }
        assert forall|i: int, r: int|
            0 <= i < init.len() && #[trigger] holds(ts, r, f(init[i])) implies g(
            Span { open: r as usize, close: (r + f(init[i]).len() - 1) as usize },
        ) == Some(init[i]) by {
            assert(init[i] == items[i]);
        }
        lemma_list_round_trip(ts, p, init, f, g, name);
        assert(items[items.len() - 1] == last);
        assert(shaped(f(items[items.len() - 1]), name));
        lemma_children_of_shaped(ts, q, e, name);
        lemma_children_split(ts, p, q, q + e.len());
        let before = children(ts, p, q)->0;
        let s = Span { open: q as usize, close: (q + e.len() - 1) as usize };
        let spans = children(ts, p, q + e.len())->0;
        assert(spans =~= before.push(s));
        assert(spans.drop_last() =~= before);
        assert(spans.last() == s);
        assert(s.open as int == q);
        assert(g(s) == Some(last));
        assert(init.push(last) =~= items);
    }
}


/// A sequence that holds two parts in a row holds each of them.
pub proof fn lemma_holds_both(ts: Seq<TokenView>, p: int, x: Seq<TokenView>, y: Seq<TokenView>)
    requires
        holds(ts, p, x + y),
    ensures
        holds(ts, p, x),
        holds(ts, p + x.len(), y),
{
    assert forall|j: int| 0 <= j < x.len() implies ts[p + j] == #[trigger] x[j] by {
        assert((x + y)[j] == x[j]);
    }
    assert forall|j: int| 0 <= j < y.len() implies ts[p + x.len() + j] == #[trigger] y[j] by {
        assert((x + y)[x.len() + j] == y[j]);
        assert(ts[p + (x.len() + j)] == (x + y)[x.len() + j]);
    }
}

/// A shaped element behind a range adds one child to the children of the
/// range.
pub proof fn lemma_children_then_shaped(
    ts: Seq<TokenView>,
    a: int,
    m: int,
    e: Seq<TokenView>,
    name: Seq<char>,
)
    requires
        0 <= a <= m,
        children(ts, a, m) is Some,
        holds(ts, m, e),
        shaped(e, name),
    ensures
        children(ts, a, m + e.len()) == Some(
            children(ts, a, m)->0.push(
                Span { open: m as usize, close: (m + e.len() - 1) as usize },
            ),
        ),
        name_at(ts, m) == name,
{
    lemma_children_of_shaped(ts, m, e, name);
    lemma_children_split(ts, a, m, m + e.len());
    let s = Span { open: m as usize, close: (m + e.len() - 1) as usize };
    assert(children(ts, a, m)->0 + seq![s] =~= children(ts, a, m)->0.push(s));
}

/// Among spans with one more at the end, those called `name` are those
/// among the first, and the last where it is called so.
pub proof fn lemma_named_push(ts: Seq<TokenView>, spans: Seq<Span>, s: Span, name: Seq<char>)
    ensures
        named(ts, spans.push(s), name) == if name_at(ts, s.open as int) == name {
            named(ts, spans, name).push(s)
        } else {
            named(ts, spans, name)
        },
{
    assert(spans.push(s).drop_last() =~= spans);
    assert(spans.push(s).last() == s);
}


/// A closing token that is found lies at or behind the start of the search,
/// inside the sequence.
pub proof fn lemma_close_in_range(ts: Seq<TokenView>, j: int, d: nat)
    requires
        0 <= j,
        close_of(ts, j, d) is Some,
    ensures
        j <= close_of(ts, j, d)->0 < ts.len(),
    decreases ts.len() - j,
{
    match ts[j] {
        TokenView::Open { .. } => {
            lemma_close_in_range(ts, j + 1, d + 1);
        },
        TokenView::Close { .. } => {
            if d > 0 {
                lemma_close_in_range(ts, j + 1, (d - 1) as nat);
            }
        },
        TokenView::Text { .. } => {
            lemma_close_in_range(ts, j + 1, d);
        },
    }
}

/// A search that ends with more elements open first passes the closing
/// token that ends it with fewer open, and goes on behind that token.
pub proof fn lemma_close_of_deeper(ts: Seq<TokenView>, j: int, e: nat, d: nat)
    requires
        0 <= j,
        close_of(ts, j, e + d + 1) is Some,
    ensures
        close_of(ts, j, e) is Some,
        j <= close_of(ts, j, e)->0 < close_of(ts, j, e + d + 1)->0,
        close_of(ts, close_of(ts, j, e)->0 + 1, d) == close_of(ts, j, e + d + 1),
    decreases ts.len() - j,
{
    match ts[j] {
        TokenView::Open { .. } => {
            lemma_close_of_deeper(ts, j + 1, e + 1, d);
        },
        TokenView::Close { .. } => {
            if e > 0 {
                lemma_close_of_deeper(ts, j + 1, (e - 1) as nat, d);
            } else {
                lemma_close_in_range(ts, j + 1, d);
            }
        },
        TokenView::Text { .. } => {
            lemma_close_of_deeper(ts, j + 1, e, d);
        },
    }
}

/// What lies before the closing token of an element is complete elements
/// and text.
pub proof fn lemma_children_up_to_close(ts: Seq<TokenView>, i: int)
    requires
        0 <= i,
        close_of(ts, i, 0) is Some,
    ensures
        children(ts, i, close_of(ts, i, 0)->0) is Some,
    decreases ts.len() - i,
{
    let c = close_of(ts, i, 0)->0;
    lemma_close_in_range(ts, i, 0);
    match ts[i] {
        TokenView::Open { .. } => {
            lemma_close_of_deeper(ts, i + 1, 0, 0);
            let m = close_of(ts, i + 1, 0)->0;
            lemma_children_up_to_close(ts, m + 1);
        },
        TokenView::Close { .. } => {},
        TokenView::Text { .. } => {
            lemma_children_up_to_close(ts, i + 1);
        },
    }
}

/// A closing token found in the whole before the end of a part is found in
/// the part.
pub proof fn lemma_close_in_part(ts: Seq<TokenView>, a: int, b: int, j: int, d: nat)
    requires
        0 <= a <= j,
        b <= ts.len(),
        close_of(ts, j, d) is Some,
        close_of(ts, j, d)->0 < b,
    ensures
        close_of(ts.subrange(a, b), j - a, d) == Some(close_of(ts, j, d)->0 - a),
    decreases ts.len() - j,
{
    let part = ts.subrange(a, b);
    lemma_close_in_range(ts, j, d);
    assert(part[j - a] == ts[j]);
    match ts[j] {
        TokenView::Open { .. } => {
            lemma_close_in_part(ts, a, b, j + 1, d + 1);
        },
        TokenView::Close { .. } => {
            if d > 0 {
                lemma_close_in_part(ts, a, b, j + 1, (d - 1) as nat);
            }
        },
        TokenView::Text { .. } => {
            lemma_close_in_part(ts, a, b, j + 1, d);
        },
    }
}

/// Children found in the whole up to the end of a part are found in the
/// part.
pub proof fn lemma_children_in_part(ts: Seq<TokenView>, a: int, b: int, x: int)
    requires
        0 <= a <= x <= b <= ts.len(),
        children(ts, x, b) is Some,
    ensures
        children(ts.subrange(a, b), x - a, b - a) is Some,
    decreases b - x,
{
    let part = ts.subrange(a, b);
    if x < b {
        assert(part[x - a] == ts[x]);
        match ts[x] {
            TokenView::Open { .. } => {
                let c = close_of(ts, x + 1, 0)->0;
                lemma_close_in_part(ts, a, b, x + 1, 0);
                lemma_children_in_part(ts, a, b, c + 1);
            },
            TokenView::Close { .. } => {},
            TokenView::Text { .. } => {
                lemma_children_in_part(ts, a, b, x + 1);
            },
        }
    }
}

/// The span of an element of `ts`: its closing token is the one that
/// matches its opening token.
pub open spec fn closed_span(ts: Seq<TokenView>, k: Span) -> bool {
    &&& k.open < k.close < ts.len()
    &&& close_of(ts, k.open as int + 1, 0) == Some(k.close as int)
}

/// The content of an element of `ts` is content.
pub proof fn lemma_span_holds_content(ts: Seq<TokenView>, k: Span)
    requires
        closed_span(ts, k),
    ensures
        is_content(ts.subrange(k.open as int + 1, k.close as int)),
{
    lemma_children_up_to_close(ts, k.open as int + 1);
    lemma_children_in_part(ts, k.open as int + 1, k.close as int, k.open as int + 1);
}

/// The children of a range are elements of the sequence.
pub proof fn lemma_children_are_closed(ts: Seq<TokenView>, a: int, b: int)
    requires
        ts.len() <= usize::MAX,
        children(ts, a, b) is Some,
    ensures
        forall|j: int|
            0 <= j < children(ts, a, b)->0.len() ==> closed_span(
                ts,
                #[trigger] children(ts, a, b)->0[j],
            ),
    decreases b - a,
{
    if a < b {
        match ts[a] {
            TokenView::Open { .. } => {
                let c = close_of(ts, a + 1, 0)->0;
                lemma_children_are_closed(ts, c + 1, b);
                let rest = children(ts, c + 1, b)->0;
                let all = children(ts, a, b)->0;
                assert(all =~= seq![Span { open: a as usize, close: c as usize }] + rest);
                assert forall|j: int| 0 <= j < all.len() implies closed_span(
                    ts,
                    #[trigger] all[j],
                ) by {
                    if j > 0 {
                        assert(all[j] == rest[j - 1]);
                    }
                }
            },
            TokenView::Close { .. } => {},
            TokenView::Text { .. } => {
                lemma_children_are_closed(ts, a + 1, b);
            },
        }
    }
}

/// The spans chosen by name among elements are elements.
pub proof fn lemma_named_are_closed(ts: Seq<TokenView>, spans: Seq<Span>, name: Seq<char>)
    requires
        forall|j: int| 0 <= j < spans.len() ==> closed_span(ts, #[trigger] spans[j]),
    ensures
        forall|j: int|
            0 <= j < named(ts, spans, name).len() ==> closed_span(
                ts,
                #[trigger] named(ts, spans, name)[j],
            ),
    decreases spans.len(),
{
    if spans.len() > 0 {
        let init = spans.drop_last();
        assert forall|j: int| 0 <= j < init.len() implies closed_span(ts, #[trigger] init[j]) by {
            assert(init[j] == spans[j]);
        }
        lemma_named_are_closed(ts, init, name);
        assert(closed_span(ts, spans[spans.len() - 1]));
        let before = named(ts, init, name);
        let all = named(ts, spans, name);
        assert forall|j: int| 0 <= j < all.len() implies closed_span(ts, #[trigger] all[j]) by {
            if j < before.len() {
                assert(all[j] == before[j]);
            } else {
                assert(all[j] == spans.last());
            }
        }
    }
}

} // verus!
