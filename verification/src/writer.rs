//! Writing markup tokens as text.

use crate::markup::{Token, TokenView};
use vstd::prelude::*;

verus! {

/// What one character is written as: the five characters that markup
/// reserves become entities, every other character stays.
pub open spec fn escaped_char(c: char) -> Seq<char> {
    if c == '<' {
        "&lt;"@
    } else if c == '>' {
        "&gt;"@
    } else if c == '&' {
        "&amp;"@
    } else if c == '\'' {
        "&apos;"@
    } else if c == '"' {
        "&quot;"@
    } else {
        seq![c]
    }
}

/// A text with every character written as [`escaped_char`] says.
pub open spec fn escaped(s: Seq<char>) -> Seq<char>
    decreases s.len(),
{
    if s.len() == 0 {
        Seq::empty()
    } else {
        escaped(s.drop_last()) + escaped_char(s.last())
    }
}

/// Calls `quick_xml::escape::escape`. Trusted: the result is the argument
/// with each of `<`, `>`, `&`, `'` and `"` replaced by its entity, and every
/// other character kept, as the function's documentation tabulates.
#[verifier::external_body]
fn escape(raw: &str) -> (r: String)
    ensures
        r@ == escaped(raw@),
{
    quick_xml::escape::escape(raw).into_owned()
}

/// Two spaces for each level.
pub open spec fn indent(depth: nat) -> Seq<char>
    decreases depth,
{
    if depth == 0 {
        Seq::empty()
    } else {
        indent((depth - 1) as nat) + "  "@
    }
}

/// The attributes of a tag: for each a space, the name, and the escaped
/// value between double quotes.
pub open spec fn attributes_text(attrs: Seq<(Seq<char>, Seq<char>)>) -> Seq<char>
    decreases attrs.len(),
{
    if attrs.len() == 0 {
        Seq::empty()
    } else {
        attributes_text(attrs.drop_last()) + " "@ + attrs.last().0 + "=\""@ + escaped(
            attrs.last().1,
        ) + "\""@
    }
}

pub open spec fn opens(ts: Seq<TokenView>, i: int) -> bool {
    0 <= i < ts.len() && ts[i] is Open
}

pub open spec fn closes(ts: Seq<TokenView>, i: int) -> bool {
    0 <= i < ts.len() && ts[i] is Close
}

/// The text of the token at `i`, which stands `depth` elements deep.
///
/// An opening tag starts a line of its own, indented by its depth; where its
/// closing token follows at once the tag closes itself, and that closing
/// token is not written. Another closing tag follows text on the same line,
/// and starts a line of its own after a child element.
pub open spec fn token_text(ts: Seq<TokenView>, i: int, depth: nat) -> Seq<char> {
    match ts[i] {
        TokenView::Open { name, attributes } => (if i == 0 {
            Seq::empty()
        } else {
            "\n"@ + indent(depth)
        }) + "<"@ + name + attributes_text(attributes) + (if closes(ts, i + 1) {
            "/>"@
        } else {
            ">"@
        }),
        TokenView::Close { name } => if opens(ts, i - 1) {
            Seq::empty()
        } else {
            (if closes(ts, i - 1) {
                "\n"@ + indent(shallower(depth))
            } else {
                Seq::empty()
            }) + "</"@ + name + ">"@
        },
        TokenView::Text { content } => escaped(content),
    }
}

/// One level less deep, and not less than none.
pub open spec fn shallower(depth: nat) -> nat {
    if depth > 0 {
        (depth - 1) as nat
    } else {
        0
    }
}

/// The depth after a token that stands at `depth`.
pub open spec fn depth_after(t: TokenView, depth: nat) -> nat {
    match t {
        TokenView::Open { .. } => depth + 1,
        TokenView::Close { .. } => shallower(depth),
        TokenView::Text { .. } => depth,
    }
}

/// The text of the tokens from `i` on, the first of them `depth` deep.
pub open spec fn text_from(ts: Seq<TokenView>, i: int, depth: nat) -> Seq<char>
    decreases ts.len() - i,
{
    if i < 0 || i >= ts.len() {
        Seq::empty()
    } else {
        token_text(ts, i, depth) + text_from(ts, i + 1, depth_after(ts[i], depth))
    }
}

/// The text of a document: the declaration on a line of its own, the tokens,
/// and a newline at the end.
pub open spec fn document_text(ts: Seq<TokenView>) -> Seq<char> {
    "<?xml version='1.0' encoding='UTF-8'?>\n"@ + text_from(ts, 0, 0) + "\n"@
}

/// Appends the indentation of `depth` levels.
pub fn write_indent(out: &mut String, depth: usize)
    ensures
        final(out)@ == old(out)@ + indent(depth as nat),
{
    let ghost before = out@;
    let mut k: usize = 0;
    assert(before + indent(0) =~= before);
    while k < depth
        invariant
            k <= depth,
            out@ == before + indent(k as nat),
        decreases depth - k,
    {
        out.append("  ");
        assert(out@ =~= before + indent((k + 1) as nat));
        k = k + 1;
    }
}

/// Appends the attributes of a tag.
pub fn write_attributes(out: &mut String, attrs: &Vec<(String, String)>)
    ensures
        final(out)@ == old(out)@ + attributes_text(attrs.deep_view()),
{
    let ghost before = out@;
    let ghost all = attrs.deep_view();
    let mut k: usize = 0;
    assert(before + attributes_text(all.take(0)) =~= before);
    while k < attrs.len()
        invariant
            k <= attrs.len(),
            all == attrs.deep_view(),
            out@ == before + attributes_text(all.take(k as int)),
        decreases attrs.len() - k,
    {
        assert(all.take(k as int + 1).drop_last() =~= all.take(k as int));
        assert(all.take(k as int + 1).last() == attrs@[k as int].deep_view());
        let value = escape(attrs[k].1.as_str());
        out.append(" ");
        out.append(attrs[k].0.as_str());
        out.append("=\"");
        out.append(value.as_str());
        out.append("\"");
        assert(out@ =~= before + attributes_text(all.take(k as int + 1)));
        k = k + 1;
    }
    assert(all.take(attrs.len() as int) =~= all);
}

/// Appends the text of the token at `i`.
pub fn write_token(out: &mut String, tokens: &Vec<Token>, i: usize, depth: usize)
    requires
        i < tokens.len(),
    ensures
        final(out)@ == old(out)@ + token_text(tokens.deep_view(), i as int, depth as nat),
{
    let ghost before = out@;
    let ghost ts = tokens.deep_view();
    assert(ts[i as int] == tokens@[i as int].deep_view());
    match &tokens[i] {
        Token::Open { name, attributes } => {
            if i > 0 {
                out.append("\n");
                write_indent(out, depth);
            }
            out.append("<");
            out.append(name.as_str());
            write_attributes(out, attributes);
            let mut closed = false;
            if i + 1 < tokens.len() {
                assert(ts[i as int + 1] == tokens@[i as int + 1].deep_view());
                if let Token::Close { .. } = &tokens[i + 1] {
                    closed = true;
                }
            }
            assert(closed == closes(ts, i as int + 1));
            if closed {
                out.append("/>");
            } else {
                out.append(">");
            }
            assert(out@ =~= before + token_text(ts, i as int, depth as nat));
        },
        Token::Close { name } => {
            let mut after_open = false;
            let mut after_close = false;
            if i > 0 {
                assert(ts[i as int - 1] == tokens@[i as int - 1].deep_view());
                match &tokens[i - 1] {
                    Token::Open { .. } => {
                        after_open = true;
                    },
                    Token::Close { .. } => {
                        after_close = true;
                    },
                    Token::Text { .. } => {},
                }
            }
            assert(after_open == opens(ts, i as int - 1));
            assert(after_close == closes(ts, i as int - 1));
            if !after_open {
                if after_close {
                    out.append("\n");
                    write_indent(
                        out,
                        if depth > 0 {
                            depth - 1
                        } else {
                            0
                        },
                    );
                }
                out.append("</");
                out.append(name.as_str());
                out.append(">");
            }
            assert(out@ =~= before + token_text(ts, i as int, depth as nat));
        },
        Token::Text { content } => {
            let text = escape(content.as_str());
            out.append(text.as_str());
        },
    }
}

/// Writes a token sequence as the text of a document.
pub fn write_document(tokens: &Vec<Token>) -> (r: String)
    ensures
        r@ == document_text(tokens.deep_view()),
{
    let ghost ts = tokens.deep_view();
    let ghost head = "<?xml version='1.0' encoding='UTF-8'?>\n"@;
    let mut out = "<?xml version='1.0' encoding='UTF-8'?>\n".to_owned();
    let mut i: usize = 0;
    let mut depth: usize = 0;
    let ghost done = Seq::<char>::empty();
    assert(head + done =~= head);
    assert(done + text_from(ts, 0, 0) =~= text_from(ts, 0, 0));
    while i < tokens.len()
        invariant
            i <= tokens.len(),
            ts == tokens.deep_view(),
            depth <= i,
            out@ == head + done,
            text_from(ts, 0, 0) == done + text_from(ts, i as int, depth as nat),
        decreases tokens.len() - i,
    {
        assert(ts[i as int] == tokens@[i as int].deep_view());
        write_token(&mut out, tokens, i, depth);
        proof {
            let piece = token_text(ts, i as int, depth as nat);
            assert(done + (piece + text_from(ts, i as int + 1, depth_after(ts[i as int], depth as nat)))
                =~= (done + piece) + text_from(
                ts,
                i as int + 1,
                depth_after(ts[i as int], depth as nat),
            ));
            assert(head + done + piece =~= head + (done + piece));
            done = done + piece;
        }
        match &tokens[i] {
            Token::Open { .. } => {
                depth = depth + 1;
            },
            Token::Close { .. } => {
                if depth > 0 {
                    depth = depth - 1;
                }
            },
            Token::Text { .. } => {},
        }
        i = i + 1;
    }
    assert(done + Seq::<char>::empty() =~= done);
    out.append("\n");
    out
}

} // verus!
