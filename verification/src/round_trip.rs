//! The round trip: what decoding gives back of what encoding wrote, and
//! which documents it holds for.

use crate::designspace::{
    axes_of, axis_of, dimension_of, document_of, each, flag, instance_of, instances_of, lib_of,
    location_of, mapping_of, mappings_of, opening, optional_decimal, optional_decimals,
    required_decimal, root_of, source_of, sources_of, unwrapped, Axis, AxisMapping,
    AxisMappingView, AxisView, DesignSpaceDocument, Dimension, DimensionView, DocumentView,
    Instance, InstanceView, SourceView,
};
use crate::encode::{
    axis_map_tokens, axis_tokens, concat, dimension_tokens, document_tokens, element, flag_text,
    instance_tokens, joined_values, lib_tokens, location_tokens, mapping_tokens, optional_pair,
    pair, source_tokens,
};
use crate::markup::{attribute, child_spans, children, name_at, named, Span, Token, TokenView};
use crate::number::{
    all_decimal, check_all_decimal, check_decimal, fields, is_decimal, is_separator, joined,
    reads_from, step, Phase,
};
use crate::reader::{events_of, tokens_of};
use crate::structure::{
    closed_span, holds, is_content, lemma_children_are_closed, lemma_children_of_element,
    lemma_children_of_shaped, lemma_children_then_shaped, lemma_content_then_content,
    lemma_element_closes, lemma_element_is_shaped, lemma_holds_both, lemma_list_is_content,
    lemma_list_round_trip, lemma_named_are_closed, lemma_named_push, lemma_shaped_is_content,
    lemma_span_holds_content, shaped,
};
use crate::writer::document_text;
use vstd::prelude::*;

verus! {

/// A text that reads as a number from position `i` on holds no separator
/// from `i` on.
pub proof fn lemma_number_has_no_separator(s: Seq<char>, i: int, p: Phase)
    requires
        0 <= i <= s.len(),
        reads_from(s, i, p),
    ensures
        forall|j: int| i <= j < s.len() ==> !is_separator(#[trigger] s[j]),
    decreases s.len() - i,
{
    if i < s.len() {
        lemma_number_has_no_separator(s, i + 1, step(p, s[i])->0);
    }
}

/// A decimal number is not empty and holds no separator.
pub proof fn lemma_decimal_is_one_field(s: Seq<char>)
    requires
        is_decimal(s),
    ensures
        s.len() > 0,
        forall|j: int| 0 <= j < s.len() ==> !is_separator(#[trigger] s[j]),
{
    lemma_number_has_no_separator(s, 0, Phase::Start);
}

/// A text without separators that follows a separator, or stands at the
/// start, is one more item.
pub proof fn lemma_fields_of_one_more(x: Seq<char>, item: Seq<char>)
    requires
        item.len() > 0,
        forall|j: int| 0 <= j < item.len() ==> !is_separator(#[trigger] item[j]),
        x.len() == 0 || is_separator(x.last()),
    ensures
        fields(x + item) == fields(x).push(item),
    decreases item.len(),
{
    let whole = x + item;
    let c = item.last();
    assert(whole.last() == c);
    assert(whole.drop_last() =~= x + item.drop_last());
    if item.len() == 1 {
        assert(x + item.drop_last() =~= x);
        assert(item =~= seq![c]);
        if whole.len() >= 2 {
            assert(whole[whole.len() - 2] == x.last());
        }
    } else {
        lemma_fields_of_one_more(x, item.drop_last());
        assert(whole[whole.len() - 2] == item[item.len() - 2]);
        let init = fields(x).push(item.drop_last());
        assert(init.drop_last() =~= fields(x));
        assert(item.drop_last().push(c) =~= item);
    }
}

/// Splitting a list of decimal numbers that were joined by spaces gives the
/// numbers back.
pub proof fn lemma_split_of_joined(items: Seq<Seq<char>>)
    requires
        all_decimal(items),
    ensures
        fields(joined(items)) == items,
    decreases items.len(),
{
    if items.len() == 0 {
        assert(items =~= Seq::empty());
    } else {
        let last = items.last();
        lemma_decimal_is_one_field(last);
        if items.len() == 1 {
            assert(Seq::<char>::empty() + last =~= last);
            lemma_fields_of_one_more(Seq::empty(), last);
            assert(Seq::<Seq<char>>::empty().push(last) =~= items);
        } else {
            let init = items.drop_last();
            assert(all_decimal(init)) by {
                assert forall|k: int| 0 <= k < init.len() implies is_decimal(
                    #[trigger] init[k],
                ) by {
                    assert(init[k] == items[k]);
                }
            }
            lemma_split_of_joined(init);
            reveal_strlit(" ");
            let x = joined(init) + " "@;
            assert(x.last() == ' ');
            assert(x.drop_last() =~= joined(init));
            assert(fields(x) == fields(joined(init)));
            lemma_fields_of_one_more(x, last);
            assert(init.push(last) =~= items);
        }
    }
}

/// Among attributes written one list after another, a name is looked up in
/// the first list, and in the second where the first does not have it.
pub proof fn lemma_attribute_of_two(
    a: Seq<(Seq<char>, Seq<char>)>,
    b: Seq<(Seq<char>, Seq<char>)>,
    name: Seq<char>,
)
    ensures
        attribute(a + b, name) == match attribute(a, name) {
            Some(v) => Some(v),
            None => attribute(b, name),
        },
    decreases a.len(),
{
    if a.len() == 0 {
        assert(a + b =~= b);
    } else {
        assert((a + b)[0] == a[0]);
        assert((a + b).drop_first() =~= a.drop_first() + b);
        lemma_attribute_of_two(a.drop_first(), b, name);
    }
}

/// The numbers of a dimension are decimal numbers.
pub open spec fn valid_dimension(d: DimensionView) -> bool {
    &&& d.uservalue is Some ==> is_decimal(d.uservalue->0)
    &&& d.xvalue is Some ==> is_decimal(d.xvalue->0)
    &&& d.yvalue is Some ==> is_decimal(d.yvalue->0)
}

/// The numbers of a mapping are decimal numbers.
pub open spec fn valid_mapping(m: AxisMappingView) -> bool {
    is_decimal(m.input) && is_decimal(m.output)
}

/// An encoded dimension decodes to itself.
pub proof fn lemma_dimension_round_trip(d: DimensionView)
    requires
        valid_dimension(d),
    ensures
        dimension_of(dimension_tokens(d), Span { open: 0, close: 1 }) == Some(d),
{
    reveal_strlit("name");
    reveal_strlit("uservalue");
    reveal_strlit("xvalue");
    reveal_strlit("yvalue");
    assert("name"@.len() == 4 && "uservalue"@.len() == 9);
    assert("xvalue"@[0] == 'x' && "yvalue"@[0] == 'y');
    let a = pair("name"@, d.name);
    let u = optional_pair("uservalue"@, d.uservalue);
    let x = optional_pair("xvalue"@, d.xvalue);
    let y = optional_pair("yvalue"@, d.yvalue);
    let attrs = a + u + x + y;
    assert forall|n: Seq<char>|
        attribute(attrs, n) == match attribute(a, n) {
            Some(v) => Some(v),
            None => match attribute(u, n) {
                Some(v) => Some(v),
                None => match attribute(x, n) {
                    Some(v) => Some(v),
                    None => attribute(y, n),
                },
            },
        } by {
        lemma_attribute_of_two(a + u + x, y, n);
        lemma_attribute_of_two(a + u, x, n);
        lemma_attribute_of_two(a, u, n);
    }
    lemma_pair_lookup("name"@, d.name, "name"@);
    lemma_pair_lookup("name"@, d.name, "uservalue"@);
    lemma_pair_lookup("name"@, d.name, "xvalue"@);
    lemma_pair_lookup("name"@, d.name, "yvalue"@);
    lemma_optional_lookup("uservalue"@, d.uservalue, "uservalue"@);
    lemma_optional_lookup("uservalue"@, d.uservalue, "xvalue"@);
    lemma_optional_lookup("uservalue"@, d.uservalue, "yvalue"@);
    lemma_optional_lookup("xvalue"@, d.xvalue, "xvalue"@);
    lemma_optional_lookup("xvalue"@, d.xvalue, "yvalue"@);
    lemma_optional_lookup("yvalue"@, d.yvalue, "yvalue"@);
    lemma_optional_lookup("xvalue"@, d.xvalue, "uservalue"@);
    lemma_optional_lookup("yvalue"@, d.yvalue, "uservalue"@);
    lemma_optional_lookup("yvalue"@, d.yvalue, "xvalue"@);
    assert(attribute(attrs, "name"@) == Some(d.name));
    assert(attribute(attrs, "uservalue"@) == d.uservalue);
    assert(attribute(attrs, "xvalue"@) == d.xvalue);
    assert(attribute(attrs, "yvalue"@) == d.yvalue);
    assert(optional_decimal(attrs, "uservalue"@) == Some(d.uservalue));
    assert(optional_decimal(attrs, "xvalue"@) == Some(d.xvalue));
    assert(optional_decimal(attrs, "yvalue"@) == Some(d.yvalue));
}

/// An encoded mapping decodes to itself.
pub proof fn lemma_mapping_round_trip(m: AxisMappingView)
    requires
        valid_mapping(m),
    ensures
        mapping_of(mapping_tokens(m), Span { open: 0, close: 1 }) == Some(m),
{
    reveal_strlit("input");
    reveal_strlit("output");
    assert("input"@.len() == 5 && "output"@.len() == 6);
    let a = pair("input"@, m.input);
    let b = pair("output"@, m.output);
    lemma_attribute_of_two(a, b, "input"@);
    lemma_attribute_of_two(a, b, "output"@);
    lemma_pair_lookup("input"@, m.input, "input"@);
    lemma_pair_lookup("input"@, m.input, "output"@);
    lemma_pair_lookup("output"@, m.output, "output"@);
    assert(attribute(a + b, "input"@) == Some(m.input));
    assert(attribute(a + b, "output"@) == Some(m.output));
    assert(required_decimal(a + b, "input"@) == Some(m.input));
    assert(required_decimal(a + b, "output"@) == Some(m.output));
}

/// The three facts by which a name is looked up among written attributes:
/// in two lists in a row, in one attribute, and in one that may be absent.
pub proof fn lemma_lookups()
    ensures
        forall|a: Seq<(Seq<char>, Seq<char>)>, b: Seq<(Seq<char>, Seq<char>)>, n: Seq<char>|
            #[trigger] attribute(a + b, n) == match attribute(a, n) {
                Some(v) => Some(v),
                None => attribute(b, n),
            },
        forall|m: Seq<char>, v: Seq<char>, n: Seq<char>|
            #[trigger] attribute(pair(m, v), n) == if m == n {
                Some(v)
            } else {
                None
            },
        forall|m: Seq<char>, v: Option<Seq<char>>, n: Seq<char>|
            #[trigger] attribute(optional_pair(m, v), n) == if m == n {
                v
            } else {
                None
            },
{
    assert forall|a: Seq<(Seq<char>, Seq<char>)>, b: Seq<(Seq<char>, Seq<char>)>, n: Seq<char>|
        #[trigger] attribute(a + b, n) == match attribute(a, n) {
            Some(v) => Some(v),
            None => attribute(b, n),
        } by {
        lemma_attribute_of_two(a, b, n);
    }
    assert forall|m: Seq<char>, v: Seq<char>, n: Seq<char>|
        #[trigger] attribute(pair(m, v), n) == if m == n {
            Some(v)
        } else {
            None
        } by {
        lemma_pair_lookup(m, v, n);
    }
    assert forall|m: Seq<char>, v: Option<Seq<char>>, n: Seq<char>|
        #[trigger] attribute(optional_pair(m, v), n) == if m == n {
            v
        } else {
            None
        } by {
        lemma_optional_lookup(m, v, n);
    }
}

/// Looking a name up in one attribute finds the value under the attribute's
/// own name and nothing under another.
pub proof fn lemma_pair_lookup(name: Seq<char>, value: Seq<char>, wanted: Seq<char>)
    ensures
        attribute(pair(name, value), wanted) == if name == wanted {
            Some(value)
        } else {
            None
        },
{
    let attrs = pair(name, value);
    assert(attrs[0] == (name, value));
    assert(attrs.drop_first().len() == 0);
    assert(attribute(attrs.drop_first(), wanted) is None);
}

/// Looking a name up in an attribute that may be absent finds the value, if
/// there is one, under the attribute's own name and nothing under another.
pub proof fn lemma_optional_lookup(name: Seq<char>, value: Option<Seq<char>>, wanted: Seq<char>)
    ensures
        attribute(optional_pair(name, value), wanted) == if name == wanted {
            value
        } else {
            None
        },
{
    let attrs = optional_pair(name, value);
    if value is Some {
        assert(attrs[0] == (name, value->0));
        assert(attrs.drop_first().len() == 0);
        assert(attribute(attrs.drop_first(), wanted) is None);
    }
}


/// An encoded dimension has the shape of an element called `dimension`.
pub proof fn lemma_dimension_is_shaped(d: DimensionView)
    ensures
        shaped(dimension_tokens(d), "dimension"@),
        dimension_tokens(d).len() == 2,
{
    lemma_element_is_shaped(
        "dimension"@,
        pair("name"@, d.name) + optional_pair("uservalue"@, d.uservalue) + optional_pair(
            "xvalue"@,
            d.xvalue,
        ) + optional_pair("yvalue"@, d.yvalue),
        Seq::empty(),
    );
}

/// An encoded dimension that a sequence holds decodes to the dimension.
pub proof fn lemma_dimension_inside(ts: Seq<TokenView>, q: int, d: DimensionView)
    requires
        holds(ts, q, dimension_tokens(d)),
        valid_dimension(d),
        ts.len() <= usize::MAX,
    ensures
        dimension_of(
            ts,
            Span { open: q as usize, close: (q + dimension_tokens(d).len() - 1) as usize },
        ) == Some(d),
{
    lemma_dimension_round_trip(d);
    assert(ts[q + 0] == dimension_tokens(d)[0]);
    assert(opening(ts, q) == opening(dimension_tokens(d), 0));
}

/// An encoded mapping has the shape of an element called `map`.
pub proof fn lemma_mapping_is_shaped(m: AxisMappingView)
    ensures
        shaped(mapping_tokens(m), "map"@),
        mapping_tokens(m).len() == 2,
{
    lemma_element_is_shaped(
        "map"@,
        pair("input"@, m.input) + pair("output"@, m.output),
        Seq::empty(),
    );
}

/// An encoded mapping that a sequence holds decodes to the mapping.
pub proof fn lemma_mapping_inside(ts: Seq<TokenView>, q: int, m: AxisMappingView)
    requires
        holds(ts, q, mapping_tokens(m)),
        valid_mapping(m),
        ts.len() <= usize::MAX,
    ensures
        mapping_of(
            ts,
            Span { open: q as usize, close: (q + mapping_tokens(m).len() - 1) as usize },
        ) == Some(m),
{
    lemma_mapping_round_trip(m);
    assert(ts[q + 0] == mapping_tokens(m)[0]);
    assert(opening(ts, q) == opening(mapping_tokens(m), 0));
}

/// A wrapper around encoded items that a sequence holds is unwrapped to the
/// items: the wrapper has the shape of an element, and its children under
/// the items' name decode to the list, where each child decodes to its item.
pub proof fn lemma_wrapper_round_trip<T>(
    ts: Seq<TokenView>,
    q: int,
    wrapper: Seq<char>,
    item: Seq<char>,
    items: Seq<T>,
    f: spec_fn(T) -> Seq<TokenView>,
    g: spec_fn(Span) -> Option<T>,
)
    requires
        holds(ts, q, element(wrapper, Seq::empty(), concat(items, f))),
        ts.len() <= usize::MAX,
        forall|i: int| 0 <= i < items.len() ==> shaped(#[trigger] f(items[i]), item),
        forall|i: int, r: int|
            0 <= i < items.len() && #[trigger] holds(ts, r, f(items[i])) ==> g(
                Span { open: r as usize, close: (r + f(items[i]).len() - 1) as usize },
            ) == Some(items[i]),
    ensures
        children(ts, q + 1, q + 1 + concat(items, f).len()) is Some,
        each(named(ts, children(ts, q + 1, q + 1 + concat(items, f).len())->0, item), g) == Some(
            items,
        ),
{
    let content = concat(items, f);
    lemma_list_is_content(items, f, item);
    lemma_element_closes(ts, q, wrapper, Seq::empty(), content);
    lemma_list_round_trip(ts, q + 1, items, f, g, item);
}

/// A wrapper around shaped items has the shape of an element.
pub proof fn lemma_wrapper_is_shaped<T>(
    wrapper: Seq<char>,
    item: Seq<char>,
    items: Seq<T>,
    f: spec_fn(T) -> Seq<TokenView>,
)
    requires
        forall|i: int| 0 <= i < items.len() ==> shaped(#[trigger] f(items[i]), item),
    ensures
        shaped(element(wrapper, Seq::empty(), concat(items, f)), wrapper),
        element(wrapper, Seq::empty(), concat(items, f)).len() == concat(items, f).len() + 2,
{
    lemma_list_is_content(items, f, item);
    lemma_element_is_shaped(wrapper, Seq::empty(), concat(items, f));
}

/// Every dimension of a location is valid.
pub open spec fn valid_location(location: Seq<DimensionView>) -> bool {
    forall|i: int| 0 <= i < location.len() ==> valid_dimension(#[trigger] location[i])
}

/// An encoded location has the shape of an element called `location`.
pub proof fn lemma_location_is_shaped(location: Seq<DimensionView>)
    ensures
        shaped(location_tokens(location), "location"@),
        location_tokens(location).len() == concat(
            location,
            |d: DimensionView| dimension_tokens(d),
        ).len() + 2,
{
    let f = |d: DimensionView| dimension_tokens(d);
    assert forall|i: int| 0 <= i < location.len() implies shaped(
        #[trigger] f(location[i]),
        "dimension"@,
    ) by {
        lemma_dimension_is_shaped(location[i]);
    }
    lemma_wrapper_is_shaped("location"@, "dimension"@, location, f);
}

/// An encoded location that stands alone among the children `kids` decodes
/// to the location.
pub proof fn lemma_location_inside(
    ts: Seq<TokenView>,
    q: int,
    location: Seq<DimensionView>,
    kids: Seq<Span>,
)
    requires
        holds(ts, q, location_tokens(location)),
        valid_location(location),
        ts.len() <= usize::MAX,
        named(ts, kids, "location"@) == seq![
            Span { open: q as usize, close: (q + location_tokens(location).len() - 1) as usize },
        ],
    ensures
        location_of(ts, kids) == Some(location),
{
    let f = |d: DimensionView| dimension_tokens(d);
    let g = |s: Span| dimension_of(ts, s);
    lemma_location_is_shaped(location);
    assert forall|i: int| 0 <= i < location.len() implies shaped(
        #[trigger] f(location[i]),
        "dimension"@,
    ) by {
        lemma_dimension_is_shaped(location[i]);
    }
    assert forall|i: int, r: int|
        0 <= i < location.len() && #[trigger] holds(ts, r, f(location[i])) implies g(
        Span { open: r as usize, close: (r + f(location[i]).len() - 1) as usize },
    ) == Some(location[i]) by {
        lemma_dimension_inside(ts, r, location[i]);
    }
    lemma_wrapper_round_trip(ts, q, "location"@, "dimension"@, location, f, g);
    let found = named(ts, kids, "location"@);
    assert(found.len() == 1);
    assert(found[0].open as int == q);
    assert(found[0].close as int == q + 1 + concat(location, f).len());
}

/// The numbers of a source's location are decimal numbers.
pub open spec fn valid_source(s: SourceView) -> bool {
    valid_location(s.location)
}

/// A list of one span that is called `name` is the list of spans called
/// `name` in it.
pub proof fn lemma_named_of_one(ts: Seq<TokenView>, k: Span, name: Seq<char>)
    ensures
        named(ts, seq![k], name) == if name_at(ts, k.open as int) == name {
            seq![k]
        } else {
            Seq::<Span>::empty()
        },
{
    let kids = seq![k];
    assert(kids.drop_last() =~= Seq::<Span>::empty());
    assert(kids.last() == k);
    assert(named(ts, kids.drop_last(), name) =~= Seq::<Span>::empty());
    assert(Seq::<Span>::empty().push(k) =~= seq![k]);
}

/// An encoded source has the shape of an element called `source`.
pub proof fn lemma_source_is_shaped(s: SourceView)
    ensures
        shaped(source_tokens(s), "source"@),
        source_tokens(s).len() == location_tokens(s.location).len() + 2,
{
    lemma_location_is_shaped(s.location);
    lemma_shaped_is_content(location_tokens(s.location), "location"@);
    lemma_element_is_shaped(
        "source"@,
        optional_pair("familyname"@, s.familyname) + optional_pair("stylename"@, s.stylename)
            + optional_pair("name"@, s.name) + pair("filename"@, s.filename) + optional_pair(
            "layer"@,
            s.layer,
        ),
        location_tokens(s.location),
    );
}

/// An encoded source that a sequence holds decodes to the source.
pub proof fn lemma_source_inside(ts: Seq<TokenView>, q: int, s: SourceView)
    requires
        holds(ts, q, source_tokens(s)),
        valid_source(s),
        ts.len() <= usize::MAX,
    ensures
        source_of(
            ts,
            Span { open: q as usize, close: (q + source_tokens(s).len() - 1) as usize },
        ) == Some(s),
{
    let content = location_tokens(s.location);
    reveal_strlit("familyname");
    assert("familyname"@.len() == 10);
    reveal_strlit("stylename");
    assert("stylename"@.len() == 9);
    reveal_strlit("name");
    assert("name"@.len() == 4);
    reveal_strlit("filename");
    assert("filename"@.len() == 8);
    reveal_strlit("layer");
    assert("layer"@.len() == 5);
    let attrs = optional_pair("familyname"@, s.familyname)
        + optional_pair("stylename"@, s.stylename)
        + optional_pair("name"@, s.name)
        + pair("filename"@, s.filename)
        + optional_pair("layer"@, s.layer);
    lemma_lookups();
    assert(attribute(attrs, "familyname"@) == s.familyname);
    assert(attribute(attrs, "stylename"@) == s.stylename);
    assert(attribute(attrs, "name"@) == s.name);
    assert(attribute(attrs, "filename"@) == Some(s.filename));
    assert(attribute(attrs, "layer"@) == s.layer);
    lemma_source_is_shaped(s);
    lemma_location_is_shaped(s.location);
    lemma_shaped_is_content(content, "location"@);
    lemma_element_closes(ts, q, "source"@, attrs, content);
    lemma_children_of_shaped(ts, q + 1, content, "location"@);
    let k = Span { open: (q + 1) as usize, close: (q + 1 + content.len() - 1) as usize };
    let kids = seq![k];
    assert(children(ts, q + 1, q + 1 + content.len()) == Some(kids));
    lemma_named_of_one(ts, k, "location"@);
    lemma_location_inside(ts, q + 1, s.location, kids);
    let span = Span { open: q as usize, close: (q + source_tokens(s).len() - 1) as usize };
    assert(span.open as int == q);
    assert(span.close as int == q + 1 + content.len());
    assert(opening(ts, q) == Some(attrs));
}


/// The numbers of an axis are decimal numbers.
pub open spec fn valid_axis(a: AxisView) -> bool {
    &&& is_decimal(a.default)
    &&& a.minimum is Some ==> is_decimal(a.minimum->0)
    &&& a.maximum is Some ==> is_decimal(a.maximum->0)
    &&& a.values is Some ==> all_decimal(a.values->0)
    &&& a.map is Some ==> valid_mappings(a.map->0)
}

/// The numbers of every mapping are decimal numbers.
pub open spec fn valid_mappings(map: Seq<AxisMappingView>) -> bool {
    forall|i: int| 0 <= i < map.len() ==> valid_mapping(#[trigger] map[i])
}

/// The attributes of an encoded axis.
pub open spec fn axis_attributes(a: AxisView) -> Seq<(Seq<char>, Seq<char>)> {
    pair("name"@, a.name) + pair("tag"@, a.tag) + pair("default"@, a.default) + pair(
        "hidden"@,
        flag_text(a.hidden),
    ) + optional_pair("minimum"@, a.minimum) + optional_pair("maximum"@, a.maximum)
        + optional_pair("values"@, joined_values(a.values))
}

/// The encoded mappings of an axis are content.
pub proof fn lemma_axis_map_is_content(map: Option<Seq<AxisMappingView>>)
    ensures
        is_content(axis_map_tokens(map)),
        map is Some ==> shaped(axis_map_tokens(map), "map"@) && axis_map_tokens(map).len()
            == concat(map->0, |m: AxisMappingView| mapping_tokens(m)).len() + 2,
        map is None ==> axis_map_tokens(map).len() == 0,
{
    match map {
        Some(ms) => {
            let f = |m: AxisMappingView| mapping_tokens(m);
            assert forall|i: int| 0 <= i < ms.len() implies shaped(#[trigger] f(ms[i]), "map"@) by {
                lemma_mapping_is_shaped(ms[i]);
            }
            lemma_wrapper_is_shaped("map"@, "map"@, ms, f);
            lemma_shaped_is_content(axis_map_tokens(map), "map"@);
        },
        None => {},
    }
}

/// An encoded axis has the shape of an element called `axis`.
pub proof fn lemma_axis_is_shaped(a: AxisView)
    ensures
        shaped(axis_tokens(a), "axis"@),
        axis_tokens(a).len() == axis_map_tokens(a.map).len() + 2,
        axis_tokens(a) == element("axis"@, axis_attributes(a), axis_map_tokens(a.map)),
{
    lemma_axis_map_is_content(a.map);
    lemma_element_is_shaped("axis"@, axis_attributes(a), axis_map_tokens(a.map));
}

/// The attributes of an encoded axis decode to the axis's own values.
pub proof fn lemma_axis_attributes(a: AxisView)
    requires
        valid_axis(a),
    ensures
        attribute(axis_attributes(a), "name"@) == Some(a.name),
        attribute(axis_attributes(a), "tag"@) == Some(a.tag),
        required_decimal(axis_attributes(a), "default"@) == Some(a.default),
        flag(axis_attributes(a), "hidden"@) == Some(a.hidden),
        optional_decimal(axis_attributes(a), "minimum"@) == Some(a.minimum),
        optional_decimal(axis_attributes(a), "maximum"@) == Some(a.maximum),
        optional_decimals(axis_attributes(a), "values"@) == Some(a.values),
{
    reveal_strlit("name");
    assert("name"@.len() == 4);
    reveal_strlit("tag");
    assert("tag"@.len() == 3);
    reveal_strlit("default");
    assert("default"@.len() == 7);
    reveal_strlit("hidden");
    assert("hidden"@.len() == 6);
    reveal_strlit("minimum");
    assert("minimum"@.len() == 7);
    reveal_strlit("maximum");
    assert("maximum"@.len() == 7);
    reveal_strlit("values");
    assert("values"@.len() == 6);
    assert("default"@[0] == 'd' && "minimum"@[0] == 'm');
    assert("default"@[0] == 'd' && "maximum"@[0] == 'm');
    assert("hidden"@[0] == 'h' && "values"@[0] == 'v');
    assert("minimum"@[1] == 'i' && "maximum"@[1] == 'a');
    let attrs = axis_attributes(a);
    lemma_lookups();
    assert(attribute(attrs, "name"@) == Some(a.name));
    assert(attribute(attrs, "tag"@) == Some(a.tag));
    assert(attribute(attrs, "default"@) == Some(a.default));
    assert(attribute(attrs, "hidden"@) == Some(flag_text(a.hidden)));
    assert(attribute(attrs, "minimum"@) == a.minimum);
    assert(attribute(attrs, "maximum"@) == a.maximum);
    assert(attribute(attrs, "values"@) == joined_values(a.values));
    reveal_strlit("true");
    reveal_strlit("false");
    reveal_strlit("1");
    reveal_strlit("0");
    assert("true"@[0] == 't' && "false"@[0] == 'f');
    assert("1"@.len() == 1 && "0"@.len() == 1 && "true"@.len() == 4 && "false"@.len() == 5);
    if a.values is Some {
        lemma_split_of_joined(a.values->0);
    }
}

/// An encoded axis that a sequence holds decodes to the axis.
pub proof fn lemma_axis_inside(ts: Seq<TokenView>, q: int, a: AxisView)
    requires
        holds(ts, q, axis_tokens(a)),
        valid_axis(a),
        ts.len() <= usize::MAX,
    ensures
        axis_of(ts, Span { open: q as usize, close: (q + axis_tokens(a).len() - 1) as usize })
            == Some(a),
{
    let content = axis_map_tokens(a.map);
    let attrs = axis_attributes(a);
    lemma_axis_is_shaped(a);
    lemma_axis_map_is_content(a.map);
    lemma_axis_attributes(a);
    lemma_element_closes(ts, q, "axis"@, attrs, content);
    let span = Span { open: q as usize, close: (q + axis_tokens(a).len() - 1) as usize };
    assert(span.open as int == q);
    assert(span.close as int == q + 1 + content.len());
    assert(opening(ts, q) == Some(attrs));
    match a.map {
        Some(ms) => {
            let f = |m: AxisMappingView| mapping_tokens(m);
            let g = |s: Span| mapping_of(ts, s);
            lemma_children_of_shaped(ts, q + 1, content, "map"@);
            let k = Span { open: (q + 1) as usize, close: (q + 1 + content.len() - 1) as usize };
            assert(children(ts, q + 1, q + 1 + content.len()) == Some(seq![k]));
            lemma_named_of_one(ts, k, "map"@);
            assert forall|i: int| 0 <= i < ms.len() implies shaped(#[trigger] f(ms[i]), "map"@) by {
                lemma_mapping_is_shaped(ms[i]);
            }
            assert forall|i: int, r: int|
                0 <= i < ms.len() && #[trigger] holds(ts, r, f(ms[i])) implies g(
                Span { open: r as usize, close: (r + f(ms[i]).len() - 1) as usize },
            ) == Some(ms[i]) by {
                lemma_mapping_inside(ts, r, ms[i]);
            }
            lemma_wrapper_round_trip(ts, q + 1, "map"@, "map"@, ms, f, g);
            let found = named(ts, seq![k], "map"@);
            assert(found[0].open as int == q + 1);
            assert(found[0].close as int == q + 2 + concat(ms, f).len());
            assert(mappings_of(ts, seq![k]) == Some(a.map));
        },
        None => {
            let kids = Seq::<Span>::empty();
            assert(children(ts, q + 1, q + 1 + content.len()) == Some(kids));
            assert(named(ts, kids, "map"@).len() == 0);
            assert(mappings_of(ts, kids) == Some(a.map));
        },
    }
}

/// The numbers of an instance's location are decimal numbers, and its
/// metadata is content: complete elements and text.
pub open spec fn valid_instance(i: InstanceView) -> bool {
    valid_location(i.location) && is_content(i.lib)
}

/// Encoded metadata is content; where there is any, it has the shape of an
/// element called `lib`.
pub proof fn lemma_lib_is_content(lib: Seq<TokenView>)
    requires
        is_content(lib),
    ensures
        is_content(lib_tokens(lib)),
        lib.len() > 0 ==> shaped(lib_tokens(lib), "lib"@) && lib_tokens(lib).len() == lib.len()
            + 2,
        lib.len() == 0 ==> lib_tokens(lib).len() == 0,
{
    if lib.len() > 0 {
        lemma_element_is_shaped("lib"@, Seq::empty(), lib);
        lemma_shaped_is_content(lib_tokens(lib), "lib"@);
    }
}

/// The attributes of an encoded instance.
pub open spec fn instance_attributes(i: InstanceView) -> Seq<(Seq<char>, Seq<char>)> {
    optional_pair("familyname"@, i.familyname) + optional_pair("stylename"@, i.stylename)
        + optional_pair("name"@, i.name) + optional_pair("filename"@, i.filename) + optional_pair(
        "postscriptfontname"@,
        i.postscriptfontname,
    ) + optional_pair("stylemapfamilyname"@, i.stylemapfamilyname) + optional_pair(
        "stylemapstylename"@,
        i.stylemapstylename,
    )
}

/// The attributes of an encoded instance decode to the instance's own
/// values.
pub proof fn lemma_instance_attributes(i: InstanceView)
    ensures
        attribute(instance_attributes(i), "familyname"@) == i.familyname,
        attribute(instance_attributes(i), "stylename"@) == i.stylename,
        attribute(instance_attributes(i), "name"@) == i.name,
        attribute(instance_attributes(i), "filename"@) == i.filename,
        attribute(instance_attributes(i), "postscriptfontname"@) == i.postscriptfontname,
        attribute(instance_attributes(i), "stylemapfamilyname"@) == i.stylemapfamilyname,
        attribute(instance_attributes(i), "stylemapstylename"@) == i.stylemapstylename,
{
    reveal_strlit("familyname");
    assert("familyname"@.len() == 10);
    reveal_strlit("stylename");
    assert("stylename"@.len() == 9);
    reveal_strlit("name");
    assert("name"@.len() == 4);
    reveal_strlit("filename");
    assert("filename"@.len() == 8);
    reveal_strlit("postscriptfontname");
    assert("postscriptfontname"@.len() == 18);
    reveal_strlit("stylemapfamilyname");
    assert("stylemapfamilyname"@.len() == 18);
    reveal_strlit("stylemapstylename");
    assert("stylemapstylename"@.len() == 17);
    assert("postscriptfontname"@[0] == 'p' && "stylemapfamilyname"@[0] == 's');
    let attrs = instance_attributes(i);
    lemma_lookups();
    assert(attribute(attrs, "familyname"@) == i.familyname);
    assert(attribute(attrs, "stylename"@) == i.stylename);
    assert(attribute(attrs, "name"@) == i.name);
    assert(attribute(attrs, "filename"@) == i.filename);
    assert(attribute(attrs, "postscriptfontname"@) == i.postscriptfontname);
    assert(attribute(attrs, "stylemapfamilyname"@) == i.stylemapfamilyname);
    assert(attribute(attrs, "stylemapstylename"@) == i.stylemapstylename);
}

/// An encoded instance has the shape of an element called `instance`.
pub proof fn lemma_instance_is_shaped(i: InstanceView)
    requires
        is_content(i.lib),
    ensures
        shaped(instance_tokens(i), "instance"@),
        instance_tokens(i).len() == location_tokens(i.location).len() + lib_tokens(i.lib).len()
            + 2,
        instance_tokens(i) == element(
            "instance"@,
            instance_attributes(i),
            location_tokens(i.location) + lib_tokens(i.lib),
        ),
{
    lemma_location_is_shaped(i.location);
    lemma_shaped_is_content(location_tokens(i.location), "location"@);
    lemma_lib_is_content(i.lib);
    lemma_content_then_content(location_tokens(i.location), lib_tokens(i.lib));
    lemma_element_is_shaped(
        "instance"@,
        instance_attributes(i),
        location_tokens(i.location) + lib_tokens(i.lib),
    );
}

/// An encoded instance that a sequence holds decodes to the instance.
pub proof fn lemma_instance_inside(ts: Seq<TokenView>, q: int, i: InstanceView)
    requires
        holds(ts, q, instance_tokens(i)),
        valid_instance(i),
        ts.len() <= usize::MAX,
    ensures
        instance_of(
            ts,
            Span { open: q as usize, close: (q + instance_tokens(i).len() - 1) as usize },
        ) == Some(i),
{
    let place = location_tokens(i.location);
    let lib = lib_tokens(i.lib);
    let content = place + lib;
    let attrs = instance_attributes(i);
    reveal_strlit("location");
    reveal_strlit("lib");
    assert("location"@.len() == 8 && "lib"@.len() == 3);
    lemma_instance_is_shaped(i);
    lemma_instance_attributes(i);
    lemma_location_is_shaped(i.location);
    lemma_shaped_is_content(place, "location"@);
    lemma_lib_is_content(i.lib);
    lemma_content_then_content(place, lib);
    lemma_element_closes(ts, q, "instance"@, attrs, content);
    lemma_holds_both(ts, q + 1, place, lib);
    let span = Span { open: q as usize, close: (q + instance_tokens(i).len() - 1) as usize };
    assert(span.open as int == q);
    assert(span.close as int == q + 1 + content.len());
    assert(opening(ts, q) == Some(attrs));
    let none = Seq::<Span>::empty();
    assert(children(ts, q + 1, q + 1) == Some(none));
    lemma_children_then_shaped(ts, q + 1, q + 1, place, "location"@);
    let k = Span { open: (q + 1) as usize, close: (q + 1 + place.len() - 1) as usize };
    lemma_named_push(ts, none, k, "location"@);
    lemma_named_push(ts, none, k, "lib"@);
    assert(named(ts, none, "location"@) =~= none);
    assert(named(ts, none, "lib"@) =~= none);
    assert(none.push(k) =~= seq![k]);
    if i.lib.len() == 0 {
        let kids = none.push(k);
        assert(content =~= place);
        assert(children(ts, q + 1, q + 1 + content.len()) == Some(kids));
        lemma_location_inside(ts, q + 1, i.location, kids);
        assert(named(ts, kids, "lib"@).len() == 0);
        assert(i.lib =~= Seq::<TokenView>::empty());
        assert(lib_of(ts, kids) == Some(i.lib));
    } else {
        let m = q + 1 + place.len();
        lemma_children_then_shaped(ts, q + 1, m, lib, "lib"@);
        let b = Span { open: m as usize, close: (m + lib.len() - 1) as usize };
        let kids = none.push(k).push(b);
        assert(children(ts, q + 1, q + 1 + content.len()) == Some(kids));
        lemma_named_push(ts, none.push(k), b, "location"@);
        lemma_named_push(ts, none.push(k), b, "lib"@);
        lemma_location_inside(ts, q + 1, i.location, kids);
        lemma_element_closes(ts, m, "lib"@, Seq::empty(), i.lib);
        assert(named(ts, kids, "lib"@) =~= seq![b]);
        assert(ts.subrange(b.open as int + 1, b.close as int) =~= i.lib) by {
            assert(b.open as int == m);
            assert(b.close as int == m + 1 + i.lib.len());
            assert forall|j: int| 0 <= j < i.lib.len() implies ts.subrange(m + 1, m + 1 + i.lib.len())[j]
                == i.lib[j] by {
                assert(ts[m + 1 + j] == i.lib[j]);
            }
        }
        assert(lib_of(ts, kids) == Some(i.lib));
    }
}


/// What a document must be like for its tokens to decode to it: every
/// number is a decimal number, and metadata is content, that is, complete
/// elements and text.
///
/// This speaks of tokens only. Whether the text written from the tokens
/// reads back as the same tokens is the reader's matter: text with white
/// space at either end, empty text, two texts in a row, and names that are
/// no markup names do not.
pub open spec fn valid_document(d: DocumentView) -> bool {
    &&& is_decimal(d.format)
    &&& forall|i: int| 0 <= i < d.axes.len() ==> valid_axis(#[trigger] d.axes[i])
    &&& forall|i: int| 0 <= i < d.sources.len() ==> valid_source(#[trigger] d.sources[i])
    &&& forall|i: int| 0 <= i < d.instances.len() ==> valid_instance(#[trigger] d.instances[i])
    &&& is_content(d.lib)
}

/// The `axes` element of an encoded document.
pub open spec fn axes_element(d: DocumentView) -> Seq<TokenView> {
    element("axes"@, Seq::empty(), concat(d.axes, |a: AxisView| axis_tokens(a)))
}

/// The `sources` element of an encoded document.
pub open spec fn sources_element(d: DocumentView) -> Seq<TokenView> {
    element("sources"@, Seq::empty(), concat(d.sources, |s: SourceView| source_tokens(s)))
}

/// The `instances` element of an encoded document.
pub open spec fn instances_element(d: DocumentView) -> Seq<TokenView> {
    element("instances"@, Seq::empty(), concat(d.instances, |i: InstanceView| instance_tokens(i)))
}

/// The content of the root element of an encoded document.
pub open spec fn document_content(d: DocumentView) -> Seq<TokenView> {
    axes_element(d) + sources_element(d) + instances_element(d) + lib_tokens(d.lib)
}

/// The span of an element of `len` tokens that starts at `at`.
pub open spec fn span_at(at: int, len: int) -> Span {
    Span { open: at as usize, close: (at + len - 1) as usize }
}

/// Where the `sources` element starts in a sequence that holds the content
/// of an encoded document's root from position 1 on.
pub open spec fn sources_at(d: DocumentView) -> int {
    1 + axes_element(d).len() as int
}

/// Where the `instances` element starts there.
pub open spec fn instances_at(d: DocumentView) -> int {
    sources_at(d) + sources_element(d).len() as int
}

/// Where the `lib` element starts there, if there is one.
pub open spec fn lib_at(d: DocumentView) -> int {
    instances_at(d) + instances_element(d).len() as int
}

/// The children of the root element of an encoded document whose content
/// starts at position 1.
pub open spec fn document_kids(d: DocumentView) -> Seq<Span> {
    let ps = sources_at(d);
    let pi = instances_at(d);
    let pb = lib_at(d);
    let three = Seq::<Span>::empty().push(span_at(1, axes_element(d).len() as int)).push(
        span_at(ps, sources_element(d).len() as int),
    ).push(span_at(pi, instances_element(d).len() as int));
    if d.lib.len() == 0 {
        three
    } else {
        three.push(span_at(pb, lib_tokens(d.lib).len() as int))
    }
}

/// The three wrappers of an encoded document have the shape of elements, and
/// the content of its root element is content.
pub proof fn lemma_document_is_shaped(d: DocumentView)
    requires
        valid_document(d),
    ensures
        shaped(axes_element(d), "axes"@),
        shaped(sources_element(d), "sources"@),
        shaped(instances_element(d), "instances"@),
        is_content(document_content(d)),
        is_content(lib_tokens(d.lib)),
        document_tokens(d) == element(
            "designspace"@,
            pair("format"@, d.format),
            document_content(d),
        ),
        document_tokens(d).len() == document_content(d).len() + 2,
{
    let fa = |a: AxisView| axis_tokens(a);
    let fs = |s: SourceView| source_tokens(s);
    let fi = |i: InstanceView| instance_tokens(i);
    assert forall|i: int| 0 <= i < d.axes.len() implies shaped(#[trigger] fa(d.axes[i]), "axis"@) by {
        lemma_axis_is_shaped(d.axes[i]);
    }
    assert forall|i: int| 0 <= i < d.sources.len() implies shaped(
        #[trigger] fs(d.sources[i]),
        "source"@,
    ) by {
        lemma_source_is_shaped(d.sources[i]);
    }
    assert forall|i: int| 0 <= i < d.instances.len() implies shaped(
        #[trigger] fi(d.instances[i]),
        "instance"@,
    ) by {
        lemma_instance_is_shaped(d.instances[i]);
    }
    lemma_wrapper_is_shaped("axes"@, "axis"@, d.axes, fa);
    lemma_wrapper_is_shaped("sources"@, "source"@, d.sources, fs);
    lemma_wrapper_is_shaped("instances"@, "instance"@, d.instances, fi);
    lemma_lib_is_content(d.lib);
    lemma_shaped_is_content(axes_element(d), "axes"@);
    lemma_shaped_is_content(sources_element(d), "sources"@);
    lemma_shaped_is_content(instances_element(d), "instances"@);
    lemma_content_then_content(axes_element(d), sources_element(d));
    lemma_content_then_content(axes_element(d) + sources_element(d), instances_element(d));
    lemma_content_then_content(
        axes_element(d) + sources_element(d) + instances_element(d),
        lib_tokens(d.lib),
    );
    lemma_element_is_shaped("designspace"@, pair("format"@, d.format), document_content(d));
}

/// Where a sequence holds the content of an encoded document's root from
/// position 1 on, the children there are the three wrappers and, where
/// there is metadata, the `lib` element; each is found under its own name
/// and under no other.
pub proof fn lemma_document_layout(ts: Seq<TokenView>, d: DocumentView)
    requires
        valid_document(d),
        holds(ts, 1, document_content(d)),
        ts.len() <= usize::MAX,
    ensures
        children(ts, 1, 1 + document_content(d).len() as int) == Some(document_kids(d)),
        named(ts, document_kids(d), "axes"@) == seq![span_at(1, axes_element(d).len() as int)],
        named(ts, document_kids(d), "sources"@) == seq![
            span_at(sources_at(d), sources_element(d).len() as int),
        ],
        named(ts, document_kids(d), "instances"@) == seq![
            span_at(instances_at(d), instances_element(d).len() as int),
        ],
        named(ts, document_kids(d), "lib"@) == if d.lib.len() == 0 {
            Seq::<Span>::empty()
        } else {
            seq![span_at(lib_at(d), lib_tokens(d.lib).len() as int)]
        },
        holds(ts, 1, axes_element(d)),
        holds(ts, sources_at(d), sources_element(d)),
        holds(ts, instances_at(d), instances_element(d)),
        holds(ts, lib_at(d), lib_tokens(d.lib)),
{
    let axes = axes_element(d);
    let sources = sources_element(d);
    let instances = instances_element(d);
    let lib = lib_tokens(d.lib);
    lemma_document_is_shaped(d);
    lemma_lib_is_content(d.lib);
    reveal_strlit("axes");
    reveal_strlit("sources");
    reveal_strlit("instances");
    reveal_strlit("lib");
    assert("axes"@.len() == 4 && "sources"@.len() == 7 && "instances"@.len() == 9 && "lib"@.len()
        == 3);
    lemma_holds_both(ts, 1, axes + sources + instances, lib);
    lemma_holds_both(ts, 1, axes + sources, instances);
    lemma_holds_both(ts, 1, axes, sources);
    let pa = 1int;
    let ps = sources_at(d);
    let pi = instances_at(d);
    let pb = lib_at(d);
    let none = Seq::<Span>::empty();
    assert(children(ts, 1, 1) == Some(none));
    lemma_children_then_shaped(ts, 1, pa, axes, "axes"@);
    let ka = span_at(pa, axes.len() as int);
    lemma_children_then_shaped(ts, 1, ps, sources, "sources"@);
    let ks = span_at(ps, sources.len() as int);
    lemma_children_then_shaped(ts, 1, pi, instances, "instances"@);
    let ki = span_at(pi, instances.len() as int);
    let three = none.push(ka).push(ks).push(ki);
    assert(children(ts, 1, pb) == Some(three));
    assert(named(ts, none, "axes"@) =~= none);
    assert(named(ts, none, "sources"@) =~= none);
    assert(named(ts, none, "instances"@) =~= none);
    assert(named(ts, none, "lib"@) =~= none);
    lemma_named_push(ts, none, ka, "axes"@);
    lemma_named_push(ts, none, ka, "sources"@);
    lemma_named_push(ts, none, ka, "instances"@);
    lemma_named_push(ts, none, ka, "lib"@);
    lemma_named_push(ts, none.push(ka), ks, "axes"@);
    lemma_named_push(ts, none.push(ka), ks, "sources"@);
    lemma_named_push(ts, none.push(ka), ks, "instances"@);
    lemma_named_push(ts, none.push(ka), ks, "lib"@);
    lemma_named_push(ts, none.push(ka).push(ks), ki, "axes"@);
    lemma_named_push(ts, none.push(ka).push(ks), ki, "sources"@);
    lemma_named_push(ts, none.push(ka).push(ks), ki, "instances"@);
    lemma_named_push(ts, none.push(ka).push(ks), ki, "lib"@);
    assert(named(ts, three, "axes"@) =~= seq![ka]);
    assert(named(ts, three, "sources"@) =~= seq![ks]);
    assert(named(ts, three, "instances"@) =~= seq![ki]);
    assert(named(ts, three, "lib"@) =~= none);
    if d.lib.len() == 0 {
        assert(document_content(d) =~= axes + sources + instances);
    } else {
        lemma_children_then_shaped(ts, 1, pb, lib, "lib"@);
        let kb = span_at(pb, lib.len() as int);
        lemma_named_push(ts, three, kb, "axes"@);
        lemma_named_push(ts, three, kb, "sources"@);
        lemma_named_push(ts, three, kb, "instances"@);
        lemma_named_push(ts, three, kb, "lib"@);
        assert(named(ts, three.push(kb), "lib"@) =~= seq![kb]);
    }
}

/// The encoded axes of a document, found alone under their name among the
/// children `kids`, decode to the axes.
pub proof fn lemma_axes_inside(ts: Seq<TokenView>, q: int, d: DocumentView, kids: Seq<Span>)
    requires
        valid_document(d),
        holds(ts, q, axes_element(d)),
        ts.len() <= usize::MAX,
        named(ts, kids, "axes"@) == seq![span_at(q, axes_element(d).len() as int)],
    ensures
        axes_of(ts, kids) == Some(d.axes),
{
    let f = |a: AxisView| axis_tokens(a);
    let g = |s: Span| axis_of(ts, s);
    assert forall|i: int| 0 <= i < d.axes.len() implies shaped(#[trigger] f(d.axes[i]), "axis"@) by {
        lemma_axis_is_shaped(d.axes[i]);
    }
    assert forall|i: int, r: int|
        0 <= i < d.axes.len() && #[trigger] holds(ts, r, f(d.axes[i])) implies g(
        Span { open: r as usize, close: (r + f(d.axes[i]).len() - 1) as usize },
    ) == Some(d.axes[i]) by {
        lemma_axis_inside(ts, r, d.axes[i]);
    }
    lemma_wrapper_is_shaped("axes"@, "axis"@, d.axes, f);
    lemma_wrapper_round_trip(ts, q, "axes"@, "axis"@, d.axes, f, g);
    let found = named(ts, kids, "axes"@);
    assert(found.len() == 1);
    assert(found[0].open as int == q);
    assert(found[0].close as int == q + 1 + concat(d.axes, f).len());
}

/// The encoded sources of a document, found alone under their name among
/// the children `kids`, decode to the sources.
pub proof fn lemma_sources_inside(ts: Seq<TokenView>, q: int, d: DocumentView, kids: Seq<Span>)
    requires
        valid_document(d),
        holds(ts, q, sources_element(d)),
        ts.len() <= usize::MAX,
        named(ts, kids, "sources"@) == seq![span_at(q, sources_element(d).len() as int)],
    ensures
        sources_of(ts, kids) == Some(d.sources),
{
    let f = |s: SourceView| source_tokens(s);
    let g = |s: Span| source_of(ts, s);
    assert forall|i: int| 0 <= i < d.sources.len() implies shaped(
        #[trigger] f(d.sources[i]),
        "source"@,
    ) by {
        lemma_source_is_shaped(d.sources[i]);
    }
    assert forall|i: int, r: int|
        0 <= i < d.sources.len() && #[trigger] holds(ts, r, f(d.sources[i])) implies g(
        Span { open: r as usize, close: (r + f(d.sources[i]).len() - 1) as usize },
    ) == Some(d.sources[i]) by {
        lemma_source_inside(ts, r, d.sources[i]);
    }
    lemma_wrapper_is_shaped("sources"@, "source"@, d.sources, f);
    lemma_wrapper_round_trip(ts, q, "sources"@, "source"@, d.sources, f, g);
    let found = named(ts, kids, "sources"@);
    assert(found.len() == 1);
    assert(found[0].open as int == q);
    assert(found[0].close as int == q + 1 + concat(d.sources, f).len());
}

/// The encoded instances of a document, found alone under their name among
/// the children `kids`, decode to the instances.
pub proof fn lemma_instances_inside(ts: Seq<TokenView>, q: int, d: DocumentView, kids: Seq<Span>)
    requires
        valid_document(d),
        holds(ts, q, instances_element(d)),
        ts.len() <= usize::MAX,
        named(ts, kids, "instances"@) == seq![span_at(q, instances_element(d).len() as int)],
    ensures
        instances_of(ts, kids) == Some(d.instances),
{
    let f = |i: InstanceView| instance_tokens(i);
    let g = |s: Span| instance_of(ts, s);
    assert forall|i: int| 0 <= i < d.instances.len() implies shaped(
        #[trigger] f(d.instances[i]),
        "instance"@,
    ) by {
        lemma_instance_is_shaped(d.instances[i]);
    }
    assert forall|i: int, r: int|
        0 <= i < d.instances.len() && #[trigger] holds(ts, r, f(d.instances[i])) implies g(
        Span { open: r as usize, close: (r + f(d.instances[i]).len() - 1) as usize },
    ) == Some(d.instances[i]) by {
        lemma_instance_inside(ts, r, d.instances[i]);
    }
    lemma_wrapper_is_shaped("instances"@, "instance"@, d.instances, f);
    lemma_wrapper_round_trip(ts, q, "instances"@, "instance"@, d.instances, f, g);
    let found = named(ts, kids, "instances"@);
    assert(found.len() == 1);
    assert(found[0].open as int == q);
    assert(found[0].close as int == q + 1 + concat(d.instances, f).len());
}

/// Encoded metadata, found under its name among the children `kids` where
/// there is any and not found where there is none, decodes to the metadata.
pub proof fn lemma_lib_inside(ts: Seq<TokenView>, q: int, lib: Seq<TokenView>, kids: Seq<Span>)
    requires
        is_content(lib),
        holds(ts, q, lib_tokens(lib)),
        ts.len() <= usize::MAX,
        named(ts, kids, "lib"@) == if lib.len() == 0 {
            Seq::<Span>::empty()
        } else {
            seq![span_at(q, lib_tokens(lib).len() as int)]
        },
    ensures
        lib_of(ts, kids) == Some(lib),
{
    if lib.len() == 0 {
        assert(lib =~= Seq::<TokenView>::empty());
    } else {
        lemma_lib_is_content(lib);
        lemma_element_closes(ts, q, "lib"@, Seq::empty(), lib);
        let kb = span_at(q, lib_tokens(lib).len() as int);
        assert(kb.open as int == q);
        assert(kb.close as int == q + 1 + lib.len());
        assert(named(ts, kids, "lib"@)[0] == kb);
        assert(ts.subrange(q + 1, q + 1 + lib.len()) =~= lib) by {
            assert forall|j: int| 0 <= j < lib.len() implies ts.subrange(q + 1, q + 1 + lib.len())[j]
                == lib[j] by {
                assert(ts[q + 1 + j] == lib[j]);
            }
        }
    }
}

/// Decoding what encoding wrote gives the document back: every field, every
/// list in its order, every absent value absent, and the metadata token for
/// token.
pub proof fn lemma_round_trip(d: DocumentView)
    requires
        valid_document(d),
        document_tokens(d).len() <= usize::MAX,
    ensures
        document_of(document_tokens(d)) == Some(d),
{
    let ts = document_tokens(d);
    let content = document_content(d);
    let attrs = pair("format"@, d.format);
    lemma_document_is_shaped(d);
    assert(holds(ts, 0, ts));
    lemma_element_closes(ts, 0, "designspace"@, attrs, content);
    lemma_children_of_element(ts, 0, "designspace"@, attrs, content);
    let root = Span { open: 0, close: (content.len() + 1) as usize };
    let top = seq![root];
    assert(children(ts, 0, ts.len() as int) == Some(top));
    lemma_named_of_one(ts, root, "designspace"@);
    assert(name_at(ts, 0) == "designspace"@);
    assert(named(ts, top, "designspace"@).len() == 1);
    lemma_pair_lookup("format"@, d.format, "format"@);
    assert(opening(ts, 0) == Some(attrs));
    assert(required_decimal(attrs, "format"@) == Some(d.format));
    lemma_document_layout(ts, d);
    let kids = document_kids(d);
    let ps = sources_at(d);
    let pi = instances_at(d);
    let pb = lib_at(d);
    lemma_axes_inside(ts, 1, d, kids);
    lemma_sources_inside(ts, ps, d, kids);
    lemma_instances_inside(ts, pi, d, kids);
    lemma_lib_inside(ts, pb, d.lib, kids);
    assert(root.close as int == 1 + content.len());
    assert(children(ts, root.open as int + 1, root.close as int) == Some(kids));
    assert(root_of(ts, root) == Some(d));
}


/// Tells whether an optional number is absent or a decimal number.
pub fn check_optional_decimal(v: &Option<String>) -> (r: bool)
    ensures
        r == (v is Some ==> is_decimal(v->0@)),
{
    match v {
        Some(text) => check_decimal(text.as_str()),
        None => true,
    }
}

/// Tells whether the numbers of a dimension are decimal numbers.
pub fn check_dimension(d: &Dimension) -> (r: bool)
    ensures
        r == valid_dimension(d.deep_view()),
{
    check_optional_decimal(&d.uservalue) && check_optional_decimal(&d.xvalue)
        && check_optional_decimal(&d.yvalue)
}

/// Tells whether the numbers of a location are decimal numbers.
pub fn check_location(location: &Vec<Dimension>) -> (r: bool)
    ensures
        r == valid_location(location.deep_view()),
{
    let mut k: usize = 0;
    while k < location.len()
        invariant
            k <= location.len(),
            forall|j: int| 0 <= j < k ==> valid_dimension(#[trigger] location.deep_view()[j]),
        decreases location.len() - k,
    {
        assert(location.deep_view()[k as int] == location@[k as int].deep_view());
        if !check_dimension(&location[k]) {
            return false;
        }
        k = k + 1;
    }
    true
}

/// Tells whether the numbers of a list of mappings are decimal numbers.
pub fn check_mappings(map: &Vec<AxisMapping>) -> (r: bool)
    ensures
        r == valid_mappings(map.deep_view()),
{
    let mut k: usize = 0;
    while k < map.len()
        invariant
            k <= map.len(),
            forall|j: int| 0 <= j < k ==> valid_mapping(#[trigger] map.deep_view()[j]),
        decreases map.len() - k,
    {
        assert(map.deep_view()[k as int] == map@[k as int].deep_view());
        if !(check_decimal(map[k].input.as_str()) && check_decimal(map[k].output.as_str())) {
            return false;
        }
        k = k + 1;
    }
    true
}

/// Tells whether the numbers of an axis are decimal numbers.
pub fn check_axis(a: &Axis) -> (r: bool)
    ensures
        r == valid_axis(a.deep_view()),
{
    let values = match &a.values {
        Some(vs) => {
            assert(a.deep_view().values == Some(vs.deep_view()));
            check_all_decimal(vs)
        },
        None => true,
    };
    let map = match &a.map {
        Some(ms) => {
            assert(a.deep_view().map == Some(ms.deep_view()));
            check_mappings(ms)
        },
        None => true,
    };
    let default = check_decimal(a.default.as_str());
    let minimum = check_optional_decimal(&a.minimum);
    let maximum = check_optional_decimal(&a.maximum);
    default && minimum && maximum && values && map
}

/// Tells whether tokens are content: complete elements and text.
pub fn check_content(tokens: &Vec<Token>) -> (r: bool)
    ensures
        r == is_content(tokens.deep_view()),
{
    child_spans(tokens, 0, tokens.len()).is_some()
}

/// Tells whether an instance is valid.
pub fn check_instance(i: &Instance) -> (r: bool)
    ensures
        r == valid_instance(i.deep_view()),
{
    check_location(&i.location) && check_content(&i.lib)
}

impl DesignSpaceDocument {
    /// Tells whether the document is valid: whether every number in it is a
    /// decimal number and its metadata is content. The tokens of a valid
    /// document decode to the document. This speaks of tokens only, not of
    /// the text written from them: see [`valid_document`].
    pub fn is_valid(&self) -> (r: bool)
        ensures
            r == valid_document(self.deep_view()),
    {
        if !check_decimal(self.format.as_str()) || !check_content(&self.lib) {
            return false;
        }
        let mut k: usize = 0;
        while k < self.axes.len()
            invariant
                k <= self.axes.len(),
                forall|j: int| 0 <= j < k ==> valid_axis(#[trigger] self.axes.deep_view()[j]),
            decreases self.axes.len() - k,
        {
            assert(self.axes.deep_view()[k as int] == self.axes@[k as int].deep_view());
            assert(self.deep_view().axes[k as int] == self.axes.deep_view()[k as int]);
            if !check_axis(&self.axes[k]) {
                return false;
            }
            k = k + 1;
        }
        let mut k: usize = 0;
        while k < self.sources.len()
            invariant
                k <= self.sources.len(),
                forall|j: int| 0 <= j < k ==> valid_source(#[trigger] self.sources.deep_view()[j]),
            decreases self.sources.len() - k,
        {
            assert(self.sources.deep_view()[k as int] == self.sources@[k as int].deep_view());
            assert(self.deep_view().sources[k as int] == self.sources.deep_view()[k as int]);
            if !check_location(&self.sources[k].location) {
                return false;
            }
            k = k + 1;
        }
        let mut k: usize = 0;
        while k < self.instances.len()
            invariant
                k <= self.instances.len(),
                forall|j: int|
                    0 <= j < k ==> valid_instance(#[trigger] self.instances.deep_view()[j]),
            decreases self.instances.len() - k,
        {
            assert(self.instances.deep_view()[k as int] == self.instances@[k as int].deep_view());
            assert(self.deep_view().instances[k as int] == self.instances.deep_view()[k as int]);
            if !check_instance(&self.instances[k]) {
                return false;
            }
            k = k + 1;
        }
        true
    }
}


/// What holds of every item that a span decodes to holds of every item of
/// a decoded list.
pub proof fn lemma_each_all<T>(
    spans: Seq<Span>,
    g: spec_fn(Span) -> Option<T>,
    p: spec_fn(T) -> bool,
)
    requires
        each(spans, g) is Some,
        forall|s: Span| (#[trigger] g(s)) is Some ==> p(g(s)->0),
    ensures
        forall|i: int| 0 <= i < each(spans, g)->0.len() ==> p(#[trigger] each(spans, g)->0[i]),
    decreases spans.len(),
{
    if spans.len() > 0 {
        lemma_each_all(spans.drop_last(), g, p);
        let before = each(spans.drop_last(), g)->0;
        let all = each(spans, g)->0;
        assert(g(spans.last()) is Some);
        assert forall|i: int| 0 <= i < all.len() implies p(#[trigger] all[i]) by {
            if i < before.len() {
                assert(all[i] == before[i]);
            } else {
                assert(all[i] == g(spans.last())->0);
            }
        }
    }
}

/// A decoded location is valid.
pub proof fn lemma_decoded_location_is_valid(ts: Seq<TokenView>, kids: Seq<Span>)
    requires
        location_of(ts, kids) is Some,
    ensures
        valid_location(location_of(ts, kids)->0),
{
    let g = |s: Span| dimension_of(ts, s);
    let p = |d: DimensionView| valid_dimension(d);
    assert forall|s: Span| (#[trigger] g(s)) is Some implies p(g(s)->0) by {}
    let spans = unwrapped(ts, kids, "location"@, "dimension"@)->0->0;
    lemma_each_all(spans, g, p);
    let location = location_of(ts, kids)->0;
    assert forall|i: int| 0 <= i < location.len() implies valid_dimension(
        #[trigger] location[i],
    ) by {
        assert(p(location[i]));
    }
}

/// A decoded axis is valid.
pub proof fn lemma_decoded_axis_is_valid(ts: Seq<TokenView>, s: Span)
    requires
        axis_of(ts, s) is Some,
    ensures
        valid_axis(axis_of(ts, s)->0),
{
    let a = axis_of(ts, s)->0;
    let kids = children(ts, s.open as int + 1, s.close as int)->0;
    if a.map is Some {
        let g = |k: Span| mapping_of(ts, k);
        let p = |m: AxisMappingView| valid_mapping(m);
        assert forall|k: Span| (#[trigger] g(k)) is Some implies p(g(k)->0) by {}
        let spans = unwrapped(ts, kids, "map"@, "map"@)->0->0;
        lemma_each_all(spans, g, p);
        let map = a.map->0;
        assert forall|i: int| 0 <= i < map.len() implies valid_mapping(#[trigger] map[i]) by {
            assert(p(map[i]));
        }
    }
}

/// A decoded source is valid.
pub proof fn lemma_decoded_source_is_valid(ts: Seq<TokenView>, s: Span)
    requires
        source_of(ts, s) is Some,
    ensures
        valid_source(source_of(ts, s)->0),
{
    lemma_decoded_location_is_valid(ts, children(ts, s.open as int + 1, s.close as int)->0);
}

/// Decoded metadata is content.
pub proof fn lemma_decoded_lib_is_content(ts: Seq<TokenView>, a: int, b: int)
    requires
        ts.len() <= usize::MAX,
        children(ts, a, b) is Some,
        lib_of(ts, children(ts, a, b)->0) is Some,
    ensures
        is_content(lib_of(ts, children(ts, a, b)->0)->0),
{
    let kids = children(ts, a, b)->0;
    lemma_children_are_closed(ts, a, b);
    lemma_named_are_closed(ts, kids, "lib"@);
    let found = named(ts, kids, "lib"@);
    if found.len() == 1 {
        assert(closed_span(ts, found[0]));
        lemma_span_holds_content(ts, found[0]);
    }
}

/// A decoded instance is valid.
pub proof fn lemma_decoded_instance_is_valid(ts: Seq<TokenView>, s: Span)
    requires
        ts.len() <= usize::MAX,
        instance_of(ts, s) is Some,
    ensures
        valid_instance(instance_of(ts, s)->0),
{
    lemma_decoded_location_is_valid(ts, children(ts, s.open as int + 1, s.close as int)->0);
    lemma_decoded_lib_is_content(ts, s.open as int + 1, s.close as int);
}

/// A decoded document is valid: decoding accepts only decimal numbers and
/// keeps as metadata only complete elements and text.
pub proof fn lemma_decoded_is_valid(ts: Seq<TokenView>)
    requires
        ts.len() <= usize::MAX,
        document_of(ts) is Some,
    ensures
        valid_document(document_of(ts)->0),
{
    let d = document_of(ts)->0;
    let root = children(ts, 0, ts.len() as int)->0[0];
    let a = root.open as int + 1;
    let b = root.close as int;
    let kids = children(ts, a, b)->0;
    assert(root_of(ts, root) == Some(d));
    lemma_decoded_lib_is_content(ts, a, b);

    let ga = |s: Span| axis_of(ts, s);
    let pa = |x: AxisView| valid_axis(x);
    assert forall|s: Span| (#[trigger] ga(s)) is Some implies pa(ga(s)->0) by {
        lemma_decoded_axis_is_valid(ts, s);
    }
    lemma_each_all(unwrapped(ts, kids, "axes"@, "axis"@)->0->0, ga, pa);
    assert forall|i: int| 0 <= i < d.axes.len() implies valid_axis(#[trigger] d.axes[i]) by {
        assert(pa(d.axes[i]));
    }

    let gs = |s: Span| source_of(ts, s);
    let ps = |x: SourceView| valid_source(x);
    assert forall|s: Span| (#[trigger] gs(s)) is Some implies ps(gs(s)->0) by {
        lemma_decoded_source_is_valid(ts, s);
    }
    lemma_each_all(unwrapped(ts, kids, "sources"@, "source"@)->0->0, gs, ps);
    assert forall|i: int| 0 <= i < d.sources.len() implies valid_source(#[trigger] d.sources[i]) by {
        assert(ps(d.sources[i]));
    }

    let gi = |s: Span| instance_of(ts, s);
    let pi = |x: InstanceView| valid_instance(x);
    assert forall|s: Span| (#[trigger] gi(s)) is Some implies pi(gi(s)->0) by {
        lemma_decoded_instance_is_valid(ts, s);
    }
    if unwrapped(ts, kids, "instances"@, "instance"@) == Some(None::<Seq<Span>>) {
        assert(d.instances.len() == 0);
    } else {
        lemma_each_all(unwrapped(ts, kids, "instances"@, "instance"@)->0->0, gi, pi);
    }
    assert forall|i: int| 0 <= i < d.instances.len() implies valid_instance(
        #[trigger] d.instances[i],
    ) by {
        assert(pi(d.instances[i]));
    }
}

/// The round trip: a document that decoding produced, encoded and decoded
/// again, is the same document.
pub proof fn lemma_decode_encode_decode(ts: Seq<TokenView>)
    requires
        ts.len() <= usize::MAX,
        document_of(ts) is Some,
        document_tokens(document_of(ts)->0).len() <= usize::MAX,
    ensures
        document_of(document_tokens(document_of(ts)->0)) == document_of(ts),
{
    lemma_decoded_is_valid(ts);
    lemma_round_trip(document_of(ts)->0);
}


/// The round trip through text, as far as it is the library's: where the
/// text written from a valid document reads back as the document's tokens,
/// loading that text gives the document. Whether it reads back so is the
/// reader's matter.
pub proof fn lemma_round_trip_through_text(d: DocumentView)
    requires
        valid_document(d),
        document_tokens(d).len() <= usize::MAX,
        tokens_of(events_of(document_text(document_tokens(d)))) == Some(document_tokens(d)),
    ensures
        document_of(tokens_of(events_of(document_text(document_tokens(d))))->0) == Some(d),
{
    lemma_round_trip(d);
}

} // verus!
