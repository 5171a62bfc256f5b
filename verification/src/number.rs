//! Decimal numbers as they are written in markup attributes.

use vstd::prelude::*;

verus! {

/// How far the reading of a decimal number has come.
#[derive(Clone, Copy, Debug, PartialEq, Eq, Structural)]
pub enum Phase {
    /// Nothing read yet.
    Start,
    /// A sign read, no digit yet.
    Signed,
    /// Inside the digits before the point.
    Whole,
    /// A point read with no digit before it.
    Point,
    /// After the point, with at least one digit read overall.
    Fraction,
    /// The exponent letter read.
    Mark,
    /// The exponent's sign read.
    MarkSigned,
    /// Inside the exponent's digits.
    Exponent,
}

pub open spec fn is_digit(c: char) -> bool {
    '0' <= c <= '9'
}

/// The phase after reading `c` in phase `p`; `None` where `c` cannot follow.
pub open spec fn step(p: Phase, c: char) -> Option<Phase> {
    match p {
        Phase::Start => if c == '+' || c == '-' {
            Some(Phase::Signed)
        } else if is_digit(c) {
            Some(Phase::Whole)
        } else if c == '.' {
            Some(Phase::Point)
        } else {
            None
        },
        Phase::Signed => if is_digit(c) {
            Some(Phase::Whole)
        } else if c == '.' {
            Some(Phase::Point)
        } else {
            None
        },
        Phase::Whole => if is_digit(c) {
            Some(Phase::Whole)
        } else if c == '.' {
            Some(Phase::Fraction)
        } else if c == 'e' || c == 'E' {
            Some(Phase::Mark)
        } else {
            None
        },
        Phase::Point => if is_digit(c) {
            Some(Phase::Fraction)
        } else {
            None
        },
        Phase::Fraction => if is_digit(c) {
            Some(Phase::Fraction)
        } else if c == 'e' || c == 'E' {
            Some(Phase::Mark)
        } else {
            None
        },
        Phase::Mark => if c == '+' || c == '-' {
            Some(Phase::MarkSigned)
        } else if is_digit(c) {
            Some(Phase::Exponent)
        } else {
            None
        },
        Phase::MarkSigned => if is_digit(c) {
            Some(Phase::Exponent)
        } else {
            None
        },
        Phase::Exponent => if is_digit(c) {
            Some(Phase::Exponent)
        } else {
            None
        },
    }
}

/// A number may end in this phase.
pub open spec fn complete(p: Phase) -> bool {
    p == Phase::Whole || p == Phase::Fraction || p == Phase::Exponent
}

/// Reading `s` from position `i` in phase `p` ends in a complete number.
pub open spec fn reads_from(s: Seq<char>, i: int, p: Phase) -> bool
    decreases s.len() - i,
{
    if i < 0 || i >= s.len() {
        complete(p)
    } else {
        match step(p, s[i]) {
            Some(q) => reads_from(s, i + 1, q),
            None => false,
        }
    }
}

/// `s` is a decimal number: an optional sign, digits with an optional point
/// among them (at least one digit), and an optional exponent, which is `e` or
/// `E`, an optional sign and at least one digit.
pub open spec fn is_decimal(s: Seq<char>) -> bool {
    reads_from(s, 0, Phase::Start)
}

/// Reads one character.
pub fn advance(p: Phase, c: char) -> (r: Option<Phase>)
    ensures
        r == step(p, c),
{
    let digit = '0' <= c && c <= '9';
    let sign = c == '+' || c == '-';
    let mark = c == 'e' || c == 'E';
    let point = c == '.';
    match p {
        Phase::Start => if sign {
            Some(Phase::Signed)
        } else if digit {
            Some(Phase::Whole)
        } else if point {
            Some(Phase::Point)
        } else {
            None
        },
        Phase::Signed => if digit {
            Some(Phase::Whole)
        } else if point {
            Some(Phase::Point)
        } else {
            None
        },
        Phase::Whole => if digit {
            Some(Phase::Whole)
        } else if point {
            Some(Phase::Fraction)
        } else if mark {
            Some(Phase::Mark)
        } else {
            None
        },
        Phase::Point => if digit {
            Some(Phase::Fraction)
        } else {
            None
        },
        Phase::Fraction => if digit {
            Some(Phase::Fraction)
        } else if mark {
            Some(Phase::Mark)
        } else {
            None
        },
        Phase::Mark => if sign {
            Some(Phase::MarkSigned)
        } else if digit {
            Some(Phase::Exponent)
        } else {
            None
        },
        Phase::MarkSigned => if digit {
            Some(Phase::Exponent)
        } else {
            None
        },
        Phase::Exponent => if digit {
            Some(Phase::Exponent)
        } else {
            None
        },
    }
}

/// Tells whether `s` is a decimal number.
pub fn check_decimal(s: &str) -> (r: bool)
    ensures
        r == is_decimal(s@),
{
    let n = s.unicode_len();
    let mut i: usize = 0;
    let mut p = Phase::Start;
    while i < n
        invariant
            n == s@.len(),
            i <= n,
            is_decimal(s@) == reads_from(s@, i as int, p),
        decreases n - i,
    {
        let c = s.get_char(i);
        match advance(p, c) {
            Some(q) => {
                p = q;
            },
            None => {
                return false;
            },
        }
        i = i + 1;
    }
    match p {
        Phase::Whole => true,
        Phase::Fraction => true,
        Phase::Exponent => true,
        _ => false,
    }
}


/// A character that separates the items of a list.
pub open spec fn is_separator(c: char) -> bool {
    c == ' ' || c == ','
}

/// The items of a list: the longest runs of characters that are no
/// separators, in order.
pub open spec fn fields(s: Seq<char>) -> Seq<Seq<char>>
    decreases s.len(),
{
    if s.len() == 0 {
        Seq::empty()
    } else {
        let init = fields(s.drop_last());
        if is_separator(s.last()) {
            init
        } else if s.len() >= 2 && !is_separator(s[s.len() - 2]) {
            init.drop_last().push(init.last().push(s.last()))
        } else {
            init.push(seq![s.last()])
        }
    }
}

/// The items joined by single spaces.
pub open spec fn joined(items: Seq<Seq<char>>) -> Seq<char>
    decreases items.len(),
{
    if items.len() == 0 {
        Seq::empty()
    } else if items.len() == 1 {
        items[0]
    } else {
        joined(items.drop_last()) + " "@ + items.last()
    }
}

/// Every item is a decimal number.
pub open spec fn all_decimal(items: Seq<Seq<char>>) -> bool {
    forall|k: int| 0 <= k < items.len() ==> is_decimal(#[trigger] items[k])
}

/// Splits a list at spaces and commas.
pub fn split_list(s: &str) -> (r: Vec<String>)
    ensures
        r.deep_view() == fields(s@),
{
    let n = s.unicode_len();
    let mut out: Vec<String> = Vec::new();
    let mut start: usize = 0;
    let mut inside = false;
    let mut i: usize = 0;
    assert(s@.take(0) =~= Seq::<char>::empty());
    assert(out.deep_view() =~= Seq::<Seq<char>>::empty());
    while i < n
        invariant
            n == s@.len(),
            i <= n,
            inside ==> start < i && !is_separator(s@[i - 1]) && fields(s@.take(i as int))
                == out.deep_view().push(s@.subrange(start as int, i as int)),
            !inside ==> (i == 0 || is_separator(s@[i - 1])) && fields(s@.take(i as int))
                == out.deep_view(),
        decreases n - i,
    {
        let c = s.get_char(i);
        let ghost prefix = s@.take(i as int + 1);
        assert(prefix.drop_last() =~= s@.take(i as int));
        assert(prefix.last() == c);
        if c == ' ' || c == ',' {
            if inside {
                let ghost before = out.deep_view();
                let item = s.substring_char(start, i).to_owned();
                out.push(item);
                assert(out.deep_view() =~= before.push(s@.subrange(start as int, i as int)));
                inside = false;
            }
        } else {
            if inside {
                assert(prefix[prefix.len() - 2] == s@[i - 1]);
                assert(s@.subrange(start as int, i as int).push(c) =~= s@.subrange(
                    start as int,
                    i as int + 1,
                ));
                assert(out.deep_view().push(s@.subrange(start as int, i as int)).drop_last()
                    =~= out.deep_view());
            } else {
                if i > 0 {
                    assert(prefix[prefix.len() - 2] == s@[i - 1]);
                }
                assert(seq![c] =~= s@.subrange(i as int, i as int + 1));
                start = i;
                inside = true;
            }
        }
        i = i + 1;
    }
    assert(s@.take(n as int) =~= s@);
    if inside {
        let ghost before = out.deep_view();
        let item = s.substring_char(start, n).to_owned();
        out.push(item);
        assert(out.deep_view() =~= before.push(s@.subrange(start as int, n as int)));
    }
    out
}

/// Tells whether every item is a decimal number.
pub fn check_all_decimal(items: &Vec<String>) -> (r: bool)
    ensures
        r == all_decimal(items.deep_view()),
{
    let mut k: usize = 0;
    while k < items.len()
        invariant
            k <= items.len(),
            forall|j: int| 0 <= j < k ==> is_decimal(#[trigger] items.deep_view()[j]),
        decreases items.len() - k,
    {
        assert(items.deep_view()[k as int] == items@[k as int]@);
        if !check_decimal(items[k].as_str()) {
            return false;
        }
        k = k + 1;
    }
    true
}

/// Joins the items by single spaces.
pub fn join_list(items: &Vec<String>) -> (r: String)
    ensures
        r@ == joined(items.deep_view()),
{
    let ghost all = items.deep_view();
    let mut out = String::new();
    let mut k: usize = 0;
    assert(all.take(0) =~= Seq::<Seq<char>>::empty());
    while k < items.len()
        invariant
            k <= items.len(),
            all == items.deep_view(),
            out@ == joined(all.take(k as int)),
        decreases items.len() - k,
    {
        assert(all.take(k as int + 1).drop_last() =~= all.take(k as int));
        assert(all.take(k as int + 1).last() == items@[k as int]@);
        if k > 0 {
            out.append(" ");
        }
        out.append(items[k].as_str());
        proof {
            if k == 0 {
                assert(all.take(1)[0] == items@[0]@);
                assert(out@ =~= items@[0]@);
            }
        }
        k = k + 1;
    }
    assert(all.take(items.len() as int) =~= all);
    out
}

} // verus!
