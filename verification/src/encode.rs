//! Encoding a design-space document as markup tokens.

use crate::designspace::{
    Axis, AxisMapping, AxisMappingView, AxisView, DesignSpaceDocument, Dimension, DimensionView,
    DocumentView, Instance, InstanceView, Source, SourceView, copy_token,
};
use crate::designspace::document_of;
use crate::round_trip::{lemma_round_trip, valid_document};
use crate::markup::{Token, TokenView};
use crate::number::{join_list, joined};
use vstd::prelude::*;

verus! {

/// One attribute.
pub open spec fn pair(name: Seq<char>, value: Seq<char>) -> Seq<(Seq<char>, Seq<char>)> {
    seq![(name, value)]
}

/// One attribute where the value is there, none where it is absent.
pub open spec fn optional_pair(name: Seq<char>, value: Option<Seq<char>>) -> Seq<
    (Seq<char>, Seq<char>),
> {
    match value {
        Some(v) => seq![(name, v)],
        None => Seq::empty(),
    }
}

/// An element: its opening token, its content, its closing token.
pub open spec fn element(
    name: Seq<char>,
    attributes: Seq<(Seq<char>, Seq<char>)>,
    content: Seq<TokenView>,
) -> Seq<TokenView> {
    seq![TokenView::Open { name, attributes }] + content + seq![TokenView::Close { name }]
}

/// The tokens of every item, one item after the other.
pub open spec fn concat<T>(items: Seq<T>, f: spec_fn(T) -> Seq<TokenView>) -> Seq<TokenView>
    decreases items.len(),
{
    if items.len() == 0 {
        Seq::empty()
    } else {
        concat(items.drop_last(), f) + f(items.last())
    }
}

pub open spec fn dimension_tokens(d: DimensionView) -> Seq<TokenView> {
    element(
        "dimension"@,
        pair("name"@, d.name) + optional_pair("uservalue"@, d.uservalue) + optional_pair(
            "xvalue"@,
            d.xvalue,
        ) + optional_pair("yvalue"@, d.yvalue),
        Seq::empty(),
    )
}

pub open spec fn location_tokens(location: Seq<DimensionView>) -> Seq<TokenView> {
    element(
        "location"@,
        Seq::empty(),
        concat(location, |d: DimensionView| dimension_tokens(d)),
    )
}

pub open spec fn mapping_tokens(m: AxisMappingView) -> Seq<TokenView> {
    element("map"@, pair("input"@, m.input) + pair("output"@, m.output), Seq::empty())
}

/// The text of a flag.
pub open spec fn flag_text(b: bool) -> Seq<char> {
    if b {
        "true"@
    } else {
        "false"@
    }
}

/// The text of a list of values: the values joined by single spaces.
pub open spec fn joined_values(values: Option<Seq<Seq<char>>>) -> Option<Seq<char>> {
    match values {
        Some(vs) => Some(joined(vs)),
        None => None,
    }
}

/// The `map` wrapper of an axis with mappings; nothing for an axis without.
pub open spec fn axis_map_tokens(map: Option<Seq<AxisMappingView>>) -> Seq<TokenView> {
    match map {
        Some(ms) => element(
            "map"@,
            Seq::empty(),
            concat(ms, |m: AxisMappingView| mapping_tokens(m)),
        ),
        None => Seq::empty(),
    }
}

pub open spec fn axis_tokens(a: AxisView) -> Seq<TokenView> {
    element(
        "axis"@,
        pair("name"@, a.name) + pair("tag"@, a.tag) + pair("default"@, a.default) + pair(
            "hidden"@,
            flag_text(a.hidden),
        ) + optional_pair("minimum"@, a.minimum) + optional_pair("maximum"@, a.maximum)
            + optional_pair("values"@, joined_values(a.values)),
        axis_map_tokens(a.map),
    )
}

pub open spec fn source_tokens(s: SourceView) -> Seq<TokenView> {
    element(
        "source"@,
        optional_pair("familyname"@, s.familyname) + optional_pair("stylename"@, s.stylename)
            + optional_pair("name"@, s.name) + pair("filename"@, s.filename) + optional_pair(
            "layer"@,
            s.layer,
        ),
        location_tokens(s.location),
    )
}

/// The `lib` element around metadata tokens; nothing where there are none.
pub open spec fn lib_tokens(lib: Seq<TokenView>) -> Seq<TokenView> {
    if lib.len() == 0 {
        Seq::empty()
    } else {
        element("lib"@, Seq::empty(), lib)
    }
}

pub open spec fn instance_tokens(i: InstanceView) -> Seq<TokenView> {
    element(
        "instance"@,
        optional_pair("familyname"@, i.familyname) + optional_pair("stylename"@, i.stylename)
            + optional_pair("name"@, i.name) + optional_pair("filename"@, i.filename)
            + optional_pair("postscriptfontname"@, i.postscriptfontname) + optional_pair(
            "stylemapfamilyname"@,
            i.stylemapfamilyname,
        ) + optional_pair("stylemapstylename"@, i.stylemapstylename),
        location_tokens(i.location) + lib_tokens(i.lib),
    )
}

/// The tokens of a document. Every list has its wrapper, also an empty one;
/// metadata has its `lib` element unless it is empty.
pub open spec fn document_tokens(d: DocumentView) -> Seq<TokenView> {
    element(
        "designspace"@,
        pair("format"@, d.format),
        element("axes"@, Seq::empty(), concat(d.axes, |a: AxisView| axis_tokens(a))) + element(
            "sources"@,
            Seq::empty(),
            concat(d.sources, |s: SourceView| source_tokens(s)),
        ) + element(
            "instances"@,
            Seq::empty(),
            concat(d.instances, |i: InstanceView| instance_tokens(i)),
        ) + lib_tokens(d.lib),
    )
}

/// Appends one attribute.
pub fn push_pair(attrs: &mut Vec<(String, String)>, name: &str, value: &String)
    ensures
        final(attrs).deep_view() == old(attrs).deep_view() + pair(name@, value@),
{
    let ghost before = attrs.deep_view();
    attrs.push((name.to_owned(), value.clone()));
    assert(attrs.deep_view() =~= before + pair(name@, value@));
}

/// Appends one attribute where the value is there.
pub fn push_optional_pair(attrs: &mut Vec<(String, String)>, name: &str, value: &Option<String>)
    ensures
        final(attrs).deep_view() == old(attrs).deep_view() + optional_pair(
            name@,
            value.deep_view(),
        ),
{
    let ghost before = attrs.deep_view();
    match value {
        Some(v) => {
            attrs.push((name.to_owned(), v.clone()));
            assert(attrs.deep_view() =~= before + optional_pair(name@, value.deep_view()));
        },
        None => {
            assert(attrs.deep_view() =~= before + optional_pair(name@, value.deep_view()));
        },
    }
}

/// Appends an opening token.
pub fn push_open(out: &mut Vec<Token>, name: &str, attributes: Vec<(String, String)>)
    ensures
        final(out).deep_view() == old(out).deep_view() + seq![
            TokenView::Open { name: name@, attributes: attributes.deep_view() },
        ],
{
    let ghost before = out.deep_view();
    out.push(Token::Open { name: name.to_owned(), attributes });
    assert(out.deep_view() =~= before + seq![
        TokenView::Open { name: name@, attributes: attributes.deep_view() },
    ]);
}

/// Appends a closing token.
pub fn push_close(out: &mut Vec<Token>, name: &str)
    ensures
        final(out).deep_view() == old(out).deep_view() + seq![TokenView::Close { name: name@ }],
{
    let ghost before = out.deep_view();
    out.push(Token::Close { name: name.to_owned() });
    assert(out.deep_view() =~= before + seq![TokenView::Close { name: name@ }]);
}

/// Appends copies of `more`.
pub fn push_tokens(out: &mut Vec<Token>, more: &Vec<Token>)
    ensures
        final(out).deep_view() == old(out).deep_view() + more.deep_view(),
{
    let ghost before = out.deep_view();
    let mut k: usize = 0;
    assert(more.deep_view().take(0) =~= Seq::<TokenView>::empty());
    assert(before + Seq::<TokenView>::empty() =~= before);
    while k < more.len()
        invariant
            k <= more.len(),
            out.deep_view() == before + more.deep_view().take(k as int),
        decreases more.len() - k,
    {
        let ghost sofar = out.deep_view();
        let t = copy_token(&more[k]);
        out.push(t);
        assert(out.deep_view() =~= sofar.push(t.deep_view()));
        assert(more.deep_view().take(k as int + 1) =~= more.deep_view().take(k as int).push(
            more@[k as int].deep_view(),
        ));
        assert(out.deep_view() =~= before + more.deep_view().take(k as int + 1));
        k = k + 1;
    }
    assert(more.deep_view().take(more.len() as int) =~= more.deep_view());
}

/// Appends the tokens of a dimension.
pub fn push_dimension(out: &mut Vec<Token>, d: &Dimension)
    ensures
        final(out).deep_view() == old(out).deep_view() + dimension_tokens(d.deep_view()),
{
    let ghost before = out.deep_view();
    let mut attrs: Vec<(String, String)> = Vec::new();
    assert(attrs.deep_view() =~= Seq::empty());
    push_pair(&mut attrs, "name", &d.name);
    push_optional_pair(&mut attrs, "uservalue", &d.uservalue);
    push_optional_pair(&mut attrs, "xvalue", &d.xvalue);
    push_optional_pair(&mut attrs, "yvalue", &d.yvalue);
    assert(attrs.deep_view() =~= pair("name"@, d.name@) + optional_pair(
        "uservalue"@,
        d.uservalue.deep_view(),
    ) + optional_pair("xvalue"@, d.xvalue.deep_view()) + optional_pair(
        "yvalue"@,
        d.yvalue.deep_view(),
    ));
    push_open(out, "dimension", attrs);
    push_close(out, "dimension");
    assert(out.deep_view() =~= before + dimension_tokens(d.deep_view()));
}

/// Appends the `location` element of a list of dimensions.
pub fn push_location(out: &mut Vec<Token>, location: &Vec<Dimension>)
    ensures
        final(out).deep_view() == old(out).deep_view() + location_tokens(location.deep_view()),
{
    let ghost before = out.deep_view();
    let ghost f = |d: DimensionView| dimension_tokens(d);
    let ghost all = location.deep_view();
    let ghost open = seq![TokenView::Open { name: "location"@, attributes: Seq::empty() }];
    let attrs: Vec<(String, String)> = Vec::new();
    assert(attrs.deep_view() =~= Seq::empty());
    push_open(out, "location", attrs);
    let mut k: usize = 0;
    assert(before + open + concat(all.take(0), f) =~= before + open);
    while k < location.len()
        invariant
            k <= location.len(),
            all == location.deep_view(),
            f == (|d: DimensionView| dimension_tokens(d)),
            out.deep_view() == before + open + concat(all.take(k as int), f),
        decreases location.len() - k,
    {
        assert(all.take(k as int + 1).drop_last() =~= all.take(k as int));
        assert(all.take(k as int + 1).last() == location@[k as int].deep_view());
        push_dimension(out, &location[k]);
        assert(out.deep_view() =~= before + open + concat(all.take(k as int + 1), f));
        k = k + 1;
    }
    assert(all.take(location.len() as int) =~= all);
    push_close(out, "location");
    assert(out.deep_view() =~= before + location_tokens(all));
}


/// Appends the tokens of a mapping.
pub fn push_mapping(out: &mut Vec<Token>, m: &AxisMapping)
    ensures
        final(out).deep_view() == old(out).deep_view() + mapping_tokens(m.deep_view()),
{
    let ghost before = out.deep_view();
    let mut attrs: Vec<(String, String)> = Vec::new();
    assert(attrs.deep_view() =~= Seq::empty());
    push_pair(&mut attrs, "input", &m.input);
    push_pair(&mut attrs, "output", &m.output);
    assert(attrs.deep_view() =~= pair("input"@, m.input@) + pair("output"@, m.output@));
    push_open(out, "map", attrs);
    push_close(out, "map");
    assert(out.deep_view() =~= before + mapping_tokens(m.deep_view()));
}

/// Appends the `map` wrapper around the mappings of an axis.
pub fn push_mappings(out: &mut Vec<Token>, items: &Vec<AxisMapping>)
    ensures
        final(out).deep_view() == old(out).deep_view() + element(
            "map"@,
            Seq::empty(),
            concat(items.deep_view(), |x: AxisMappingView| mapping_tokens(x)),
        ),
{
    let ghost before = out.deep_view();
    let ghost f = |x: AxisMappingView| mapping_tokens(x);
    let ghost all = items.deep_view();
    let ghost open = seq![TokenView::Open { name: "map"@, attributes: Seq::empty() }];
    let attrs: Vec<(String, String)> = Vec::new();
    assert(attrs.deep_view() =~= Seq::empty());
    push_open(out, "map", attrs);
    let mut k: usize = 0;
    assert(before + open + concat(all.take(0), f) =~= before + open);
    while k < items.len()
        invariant
            k <= items.len(),
            all == items.deep_view(),
            f == (|x: AxisMappingView| mapping_tokens(x)),
            out.deep_view() == before + open + concat(all.take(k as int), f),
        decreases items.len() - k,
    {
        assert(all.take(k as int + 1).drop_last() =~= all.take(k as int));
        assert(all.take(k as int + 1).last() == items@[k as int].deep_view());
        push_mapping(out, &items[k]);
        assert(out.deep_view() =~= before + open + concat(all.take(k as int + 1), f));
        k = k + 1;
    }
    assert(all.take(items.len() as int) =~= all);
    push_close(out, "map");
    assert(out.deep_view() =~= before + element("map"@, Seq::empty(), concat(all, f)));
}

/// Appends the tokens of an axis.
pub fn push_axis(out: &mut Vec<Token>, a: &Axis)
    ensures
        final(out).deep_view() == old(out).deep_view() + axis_tokens(a.deep_view()),
{
    let ghost before = out.deep_view();
    let mut attrs: Vec<(String, String)> = Vec::new();
    assert(attrs.deep_view() =~= Seq::empty());
    push_pair(&mut attrs, "name", &a.name);
    push_pair(&mut attrs, "tag", &a.tag);
    push_pair(&mut attrs, "default", &a.default);
    let hidden = if a.hidden {
        "true".to_owned()
    } else {
        "false".to_owned()
    };
    push_pair(&mut attrs, "hidden", &hidden);
    push_optional_pair(&mut attrs, "minimum", &a.minimum);
    push_optional_pair(&mut attrs, "maximum", &a.maximum);
    let values = match &a.values {
        Some(vs) => Some(join_list(vs)),
        None => None,
    };
    assert(values.deep_view() == joined_values(a.values.deep_view()));
    push_optional_pair(&mut attrs, "values", &values);
    assert(attrs.deep_view() =~= pair("name"@, a.name@) + pair("tag"@, a.tag@) + pair(
        "default"@,
        a.default@,
    ) + pair("hidden"@, flag_text(a.hidden)) + optional_pair("minimum"@, a.minimum.deep_view())
        + optional_pair("maximum"@, a.maximum.deep_view()) + optional_pair(
        "values"@,
        joined_values(a.values.deep_view()),
    ));
    push_open(out, "axis", attrs);
    let ghost opened = out.deep_view();
    match &a.map {
        Some(ms) => {
            push_mappings(out, ms);
        },
        None => {},
    }
    assert(out.deep_view() =~= opened + axis_map_tokens(a.map.deep_view()));
    push_close(out, "axis");
    assert(out.deep_view() =~= before + axis_tokens(a.deep_view()));
}

/// Appends the `axes` wrapper around the axes.
pub fn push_axes(out: &mut Vec<Token>, items: &Vec<Axis>)
    ensures
        final(out).deep_view() == old(out).deep_view() + element(
            "axes"@,
            Seq::empty(),
            concat(items.deep_view(), |x: AxisView| axis_tokens(x)),
        ),
{
    let ghost before = out.deep_view();
    let ghost f = |x: AxisView| axis_tokens(x);
    let ghost all = items.deep_view();
    let ghost open = seq![TokenView::Open { name: "axes"@, attributes: Seq::empty() }];
    let attrs: Vec<(String, String)> = Vec::new();
    assert(attrs.deep_view() =~= Seq::empty());
    push_open(out, "axes", attrs);
    let mut k: usize = 0;
    assert(before + open + concat(all.take(0), f) =~= before + open);
    while k < items.len()
        invariant
            k <= items.len(),
            all == items.deep_view(),
            f == (|x: AxisView| axis_tokens(x)),
            out.deep_view() == before + open + concat(all.take(k as int), f),
        decreases items.len() - k,
    {
        assert(all.take(k as int + 1).drop_last() =~= all.take(k as int));
        assert(all.take(k as int + 1).last() == items@[k as int].deep_view());
        push_axis(out, &items[k]);
        assert(out.deep_view() =~= before + open + concat(all.take(k as int + 1), f));
        k = k + 1;
    }
    assert(all.take(items.len() as int) =~= all);
    push_close(out, "axes");
    assert(out.deep_view() =~= before + element("axes"@, Seq::empty(), concat(all, f)));
}

/// Appends the tokens of a source.
pub fn push_source(out: &mut Vec<Token>, s: &Source)
    ensures
        final(out).deep_view() == old(out).deep_view() + source_tokens(s.deep_view()),
{
    let ghost before = out.deep_view();
    let mut attrs: Vec<(String, String)> = Vec::new();
    assert(attrs.deep_view() =~= Seq::empty());
    push_optional_pair(&mut attrs, "familyname", &s.familyname);
    push_optional_pair(&mut attrs, "stylename", &s.stylename);
    push_optional_pair(&mut attrs, "name", &s.name);
    push_pair(&mut attrs, "filename", &s.filename);
    push_optional_pair(&mut attrs, "layer", &s.layer);
    assert(attrs.deep_view() =~= optional_pair("familyname"@, s.familyname.deep_view())
        + optional_pair("stylename"@, s.stylename.deep_view()) + optional_pair(
        "name"@,
        s.name.deep_view(),
    ) + pair("filename"@, s.filename@) + optional_pair("layer"@, s.layer.deep_view()));
    push_open(out, "source", attrs);
    push_location(out, &s.location);
    push_close(out, "source");
    assert(out.deep_view() =~= before + source_tokens(s.deep_view()));
}

/// Appends the `sources` wrapper around the sources.
pub fn push_sources(out: &mut Vec<Token>, items: &Vec<Source>)
    ensures
        final(out).deep_view() == old(out).deep_view() + element(
            "sources"@,
            Seq::empty(),
            concat(items.deep_view(), |x: SourceView| source_tokens(x)),
        ),
{
    let ghost before = out.deep_view();
    let ghost f = |x: SourceView| source_tokens(x);
    let ghost all = items.deep_view();
    let ghost open = seq![TokenView::Open { name: "sources"@, attributes: Seq::empty() }];
    let attrs: Vec<(String, String)> = Vec::new();
    assert(attrs.deep_view() =~= Seq::empty());
    push_open(out, "sources", attrs);
    let mut k: usize = 0;
    assert(before + open + concat(all.take(0), f) =~= before + open);
    while k < items.len()
        invariant
            k <= items.len(),
            all == items.deep_view(),
            f == (|x: SourceView| source_tokens(x)),
            out.deep_view() == before + open + concat(all.take(k as int), f),
        decreases items.len() - k,
    {
        assert(all.take(k as int + 1).drop_last() =~= all.take(k as int));
        assert(all.take(k as int + 1).last() == items@[k as int].deep_view());
        push_source(out, &items[k]);
        assert(out.deep_view() =~= before + open + concat(all.take(k as int + 1), f));
        k = k + 1;
    }
    assert(all.take(items.len() as int) =~= all);
    push_close(out, "sources");
    assert(out.deep_view() =~= before + element("sources"@, Seq::empty(), concat(all, f)));
}

/// Appends the `lib` element around metadata tokens, or nothing where there
/// are none.
pub fn push_lib(out: &mut Vec<Token>, lib: &Vec<Token>)
    ensures
        final(out).deep_view() == old(out).deep_view() + lib_tokens(lib.deep_view()),
{
    let ghost before = out.deep_view();
    if lib.len() > 0 {
        let attrs: Vec<(String, String)> = Vec::new();
        assert(attrs.deep_view() =~= Seq::empty());
        push_open(out, "lib", attrs);
        push_tokens(out, lib);
        push_close(out, "lib");
        assert(out.deep_view() =~= before + lib_tokens(lib.deep_view()));
    } else {
        assert(out.deep_view() =~= before + lib_tokens(lib.deep_view()));
    }
}

/// Appends the tokens of an instance.
pub fn push_instance(out: &mut Vec<Token>, i: &Instance)
    ensures
        final(out).deep_view() == old(out).deep_view() + instance_tokens(i.deep_view()),
{
    let ghost before = out.deep_view();
    let mut attrs: Vec<(String, String)> = Vec::new();
    assert(attrs.deep_view() =~= Seq::empty());
    push_optional_pair(&mut attrs, "familyname", &i.familyname);
    push_optional_pair(&mut attrs, "stylename", &i.stylename);
    push_optional_pair(&mut attrs, "name", &i.name);
    push_optional_pair(&mut attrs, "filename", &i.filename);
    push_optional_pair(&mut attrs, "postscriptfontname", &i.postscriptfontname);
    push_optional_pair(&mut attrs, "stylemapfamilyname", &i.stylemapfamilyname);
    push_optional_pair(&mut attrs, "stylemapstylename", &i.stylemapstylename);
    assert(attrs.deep_view() =~= optional_pair("familyname"@, i.familyname.deep_view())
        + optional_pair("stylename"@, i.stylename.deep_view()) + optional_pair(
        "name"@,
        i.name.deep_view(),
    ) + optional_pair("filename"@, i.filename.deep_view()) + optional_pair(
        "postscriptfontname"@,
        i.postscriptfontname.deep_view(),
    ) + optional_pair("stylemapfamilyname"@, i.stylemapfamilyname.deep_view()) + optional_pair(
        "stylemapstylename"@,
        i.stylemapstylename.deep_view(),
    ));
    push_open(out, "instance", attrs);
    push_location(out, &i.location);
    push_lib(out, &i.lib);
    push_close(out, "instance");
    assert(out.deep_view() =~= before + instance_tokens(i.deep_view()));
}

/// Appends the `instances` wrapper around the instances, also where there
/// are none.
pub fn push_instances(out: &mut Vec<Token>, items: &Vec<Instance>)
    ensures
        final(out).deep_view() == old(out).deep_view() + element(
            "instances"@,
            Seq::empty(),
            concat(items.deep_view(), |x: InstanceView| instance_tokens(x)),
        ),
{
    let ghost before = out.deep_view();
    let ghost f = |x: InstanceView| instance_tokens(x);
    let ghost all = items.deep_view();
    let ghost open = seq![TokenView::Open { name: "instances"@, attributes: Seq::empty() }];
    let attrs: Vec<(String, String)> = Vec::new();
    assert(attrs.deep_view() =~= Seq::empty());
    push_open(out, "instances", attrs);
    let mut k: usize = 0;
    assert(before + open + concat(all.take(0), f) =~= before + open);
    while k < items.len()
        invariant
            k <= items.len(),
            all == items.deep_view(),
            f == (|x: InstanceView| instance_tokens(x)),
            out.deep_view() == before + open + concat(all.take(k as int), f),
        decreases items.len() - k,
    {
        assert(all.take(k as int + 1).drop_last() =~= all.take(k as int));
        assert(all.take(k as int + 1).last() == items@[k as int].deep_view());
        push_instance(out, &items[k]);
        assert(out.deep_view() =~= before + open + concat(all.take(k as int + 1), f));
        k = k + 1;
    }
    assert(all.take(items.len() as int) =~= all);
    push_close(out, "instances");
    assert(out.deep_view() =~= before + element("instances"@, Seq::empty(), concat(all, f)));
}

impl DesignSpaceDocument {
    /// Encodes the document as tokens. The tokens of a valid document
    /// decode to the document.
    pub fn to_tokens(&self) -> (r: Vec<Token>)
        ensures
            r.deep_view() == document_tokens(self.deep_view()),
            valid_document(self.deep_view()) ==> document_of(r.deep_view()) == Some(
                self.deep_view(),
            ),
    {
        let mut out: Vec<Token> = Vec::new();
        assert(out.deep_view() =~= Seq::empty());
        let mut attrs: Vec<(String, String)> = Vec::new();
        assert(attrs.deep_view() =~= Seq::empty());
        push_pair(&mut attrs, "format", &self.format);
        assert(attrs.deep_view() =~= pair("format"@, self.format@));
        push_open(&mut out, "designspace", attrs);
        push_axes(&mut out, &self.axes);
        push_sources(&mut out, &self.sources);
        push_instances(&mut out, &self.instances);
        push_lib(&mut out, &self.lib);
        push_close(&mut out, "designspace");
        assert(out.deep_view() =~= document_tokens(self.deep_view()));
        proof {
            if valid_document(self.deep_view()) {
                assert(out.deep_view().len() == out.len());
                lemma_round_trip(self.deep_view());
            }
        }
        out
    }
}

} // verus!
