//! A flat model of markup: a document is a sequence of tokens, and an element
//! is the span between an opening token and the closing token that matches it.

use vstd::prelude::*;

verus! {

/// One token of a markup document. An element without content is an opening
/// token directly followed by its closing token.
#[derive(Clone, Debug, PartialEq, Eq)]
pub enum Token {
    /// An opening tag with its attributes, as pairs of name and value, in
    /// document order.
    Open { name: String, attributes: Vec<(String, String)> },
    /// A closing tag.
    Close { name: String },
    /// Character data, with entities already resolved.
    Text { content: String },
}

/// The mathematical value of a [`Token`].
pub ghost enum TokenView {
    Open { name: Seq<char>, attributes: Seq<(Seq<char>, Seq<char>)> },
    Close { name: Seq<char> },
    Text { content: Seq<char> },
}

impl DeepView for Token {
    type V = TokenView;

    open spec fn deep_view(&self) -> TokenView {
        match self {
            Token::Open { name, attributes } => TokenView::Open {
                name: name@,
                attributes: attributes.deep_view(),
            },
            Token::Close { name } => TokenView::Close { name: name@ },
            Token::Text { content } => TokenView::Text { content: content@ },
        }
    }
}

/// An element of a token sequence: the positions of its opening token and of
/// the closing token that matches it.
#[derive(Clone, Copy, Debug, PartialEq, Eq, Structural)]
pub struct Span {
    pub open: usize,
    pub close: usize,
}

/// The position of the closing token that ends the element whose content
/// starts at `i`, when `depth` further elements are open at `i`; `None` where
/// the sequence ends first.
pub open spec fn close_of(ts: Seq<TokenView>, i: int, depth: nat) -> Option<int>
    decreases ts.len() - i,
{
    if i < 0 || i >= ts.len() {
        None
    } else {
        match ts[i] {
            TokenView::Open { .. } => close_of(ts, i + 1, depth + 1),
            TokenView::Close { .. } => if depth == 0 {
                Some(i)
            } else {
                close_of(ts, i + 1, (depth - 1) as nat)
            },
            TokenView::Text { .. } => close_of(ts, i + 1, depth),
        }
    }
}

/// The child elements found between positions `a` (inclusive) and `b`
/// (exclusive), in document order; text between them is passed over. `None`
/// where the range is not a sequence of complete elements and text.
pub open spec fn children(ts: Seq<TokenView>, a: int, b: int) -> Option<Seq<Span>>
    decreases b - a,
{
    if a < 0 || b > ts.len() {
        None
    } else if a >= b {
        Some(Seq::empty())
    } else {
        match ts[a] {
            TokenView::Open { .. } => match close_of(ts, a + 1, 0) {
                Some(c) => if a < c < b {
                    match children(ts, c + 1, b) {
                        Some(rest) => Some(
                            seq![Span { open: a as usize, close: c as usize }] + rest,
                        ),
                        None => None,
                    }
                } else {
                    None
                },
                None => None,
            },
            TokenView::Close { .. } => None,
            TokenView::Text { .. } => children(ts, a + 1, b),
        }
    }
}

/// The name of the opening token at position `i`; empty where there is none.
pub open spec fn name_at(ts: Seq<TokenView>, i: int) -> Seq<char> {
    if 0 <= i < ts.len() {
        match ts[i] {
            TokenView::Open { name, .. } => name,
            _ => Seq::empty(),
        }
    } else {
        Seq::empty()
    }
}

/// The elements of `spans` whose name is `name`, in order.
pub open spec fn named(ts: Seq<TokenView>, spans: Seq<Span>, name: Seq<char>) -> Seq<Span>
    decreases spans.len(),
{
    if spans.len() == 0 {
        Seq::empty()
    } else {
        let init = named(ts, spans.drop_last(), name);
        if name_at(ts, spans.last().open as int) == name {
            init.push(spans.last())
        } else {
            init
        }
    }
}

/// The value of the first attribute called `name`; `None` where there is none.
pub open spec fn attribute(attrs: Seq<(Seq<char>, Seq<char>)>, name: Seq<char>) -> Option<
    Seq<char>,
>
    decreases attrs.len(),
{
    if attrs.len() == 0 {
        None
    } else if attrs[0].0 == name {
        Some(attrs[0].1)
    } else {
        attribute(attrs.drop_first(), name)
    }
}

/// Every span lies inside a sequence of `len` tokens, its opening token
/// before its closing token.
pub open spec fn spans_within(spans: Seq<Span>, len: int) -> bool {
    forall|k: int| 0 <= k < spans.len() ==> (#[trigger] spans[k]).open < spans[k].close < len
}

/// Finds the closing token of the element whose content starts at `start`.
pub fn find_close(tokens: &Vec<Token>, start: usize) -> (r: Option<usize>)
    ensures
        match close_of(tokens.deep_view(), start as int, 0) {
            Some(c) => r == Some(c as usize) && start <= c < tokens.len(),
            None => r is None,
        },
{
    let ghost ts = tokens.deep_view();
    let mut i: usize = start;
    let mut depth: usize = 0;
    while i < tokens.len()
        invariant
            ts == tokens.deep_view(),
            start <= i,
            depth <= i - start,
            close_of(ts, start as int, 0) == close_of(ts, i as int, depth as nat),
        decreases tokens.len() - i,
    {
        assert(ts[i as int] == tokens@[i as int].deep_view());
        match &tokens[i] {
            Token::Open { .. } => {
                depth = depth + 1;
            },
            Token::Close { .. } => {
                if depth == 0 {
                    return Some(i);
                }
                depth = depth - 1;
            },
            Token::Text { .. } => {},
        }
        i = i + 1;
    }
    None
}

/// Lists the child elements between `a` and `b`.
pub fn child_spans(tokens: &Vec<Token>, a: usize, b: usize) -> (r: Option<Vec<Span>>)
    ensures
        match children(tokens.deep_view(), a as int, b as int) {
            Some(spans) => r is Some && r->0@ == spans && spans_within(spans, tokens.len() as int),
            None => r is None,
        },
{
    let ghost ts = tokens.deep_view();
    if b > tokens.len() {
        return None;
    }
    let mut out: Vec<Span> = Vec::new();
    let mut i: usize = a;
    while i < b
        invariant
            ts == tokens.deep_view(),
            b <= tokens.len(),
            a <= i,
            spans_within(out@, tokens.len() as int),
            children(ts, a as int, b as int) == match children(ts, i as int, b as int) {
                Some(rest) => Some(out@ + rest),
                None => None,
            },
        decreases b - i,
    {
        assert(ts[i as int] == tokens@[i as int].deep_view());
        match &tokens[i] {
            Token::Open { .. } => {
                match find_close(tokens, i + 1) {
                    Some(c) => {
                        if c >= b {
                            return None;
                        }
                        let ghost before = out@;
                        out.push(Span { open: i, close: c });
                        proof {
                            match children(ts, c as int + 1, b as int) {
                                Some(rest) => {
                                    assert(before + (seq![Span { open: i, close: c }] + rest)
                                        =~= out@ + rest);
                                },
                                None => {},
                            }
                        }
                        i = c + 1;
                    },
                    None => {
                        return None;
                    },
                }
            },
            Token::Close { .. } => {
                return None;
            },
            Token::Text { .. } => {
                i = i + 1;
            },
        }
    }
    proof {
        assert(out@ + Seq::<Span>::empty() =~= out@);
    }
    Some(out)
}

/// Selects the elements of `spans` called `name`.
pub fn select_named(tokens: &Vec<Token>, spans: &Vec<Span>, name: &str) -> (r: Vec<Span>)
    requires
        spans_within(spans@, tokens.len() as int),
    ensures
        r@ == named(tokens.deep_view(), spans@, name@),
        spans_within(r@, tokens.len() as int),
{
    let ghost ts = tokens.deep_view();
    let wanted = name.to_owned();
    let mut out: Vec<Span> = Vec::new();
    let mut k: usize = 0;
    while k < spans.len()
        invariant
            ts == tokens.deep_view(),
            k <= spans.len(),
            wanted@ == name@,
            spans_within(spans@, tokens.len() as int),
            spans_within(out@, tokens.len() as int),
            out@ == named(ts, spans@.take(k as int), name@),
        decreases spans.len() - k,
    {
        let s = spans[k];
        assert(spans@.take(k as int + 1).drop_last() =~= spans@.take(k as int));
        assert(spans@.take(k as int + 1).last() == s);
        assert(ts[s.open as int] == tokens@[s.open as int].deep_view());
        match &tokens[s.open] {
            Token::Open { name: n, .. } => {
                if *n == wanted {
                    out.push(s);
                }
            },
            _ => {
                proof {
                    assert(name_at(ts, s.open as int) == Seq::<char>::empty());
                }
                let empty = wanted.as_str().unicode_len() == 0;
                proof {
                    if empty {
                        assert(name@ =~= Seq::<char>::empty());
                    }
                }
                if empty {
                    out.push(s);
                }
            },
        }
        k = k + 1;
    }
    assert(spans@.take(spans.len() as int) =~= spans@);
    out
}

/// Looks up the value of the first attribute called `name`.
pub fn find_attribute(attrs: &Vec<(String, String)>, name: &str) -> (r: Option<String>)
    ensures
        match attribute(attrs.deep_view(), name@) {
            Some(v) => r is Some && r->0@ == v,
            None => r is None,
        },
{
    let ghost all = attrs.deep_view();
    let wanted = name.to_owned();
    let mut k: usize = 0;
    assert(all.skip(0) =~= all);
    while k < attrs.len()
        invariant
            all == attrs.deep_view(),
            k <= attrs.len(),
            wanted@ == name@,
            attribute(all, name@) == attribute(all.skip(k as int), name@),
        decreases attrs.len() - k,
    {
        assert(all.skip(k as int)[0] == all[k as int]);
        assert(all[k as int] == attrs@[k as int].deep_view());
        assert(all.skip(k as int).drop_first() =~= all.skip(k as int + 1));
        if attrs[k].0 == wanted {
            return Some(attrs[k].1.clone());
        }
        k = k + 1;
    }
    assert(all.skip(attrs.len() as int).len() == 0);
    None
}

} // verus!
