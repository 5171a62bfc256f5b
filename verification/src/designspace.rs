//! The design-space document: its model and its decoding from markup tokens.

use crate::markup::{
    attribute, child_spans, children, find_attribute, named, select_named, spans_within, Span,
    Token, TokenView,
};
use crate::number::{
    all_decimal, check_all_decimal, check_decimal, fields, is_decimal, split_list,
};
use crate::round_trip::{lemma_decoded_is_valid, valid_document};
use vstd::prelude::*;

verus! {

/// Maps one user-space coordinate to one design-space coordinate.
#[derive(Clone, Debug, PartialEq, Eq)]
pub struct AxisMapping {
    /// User-space coordinate, as decimal text.
    pub input: String,
    /// Design-space coordinate, as decimal text.
    pub output: String,
}

/// The mathematical value of an [`AxisMapping`].
pub ghost struct AxisMappingView {
    pub input: Seq<char>,
    pub output: Seq<char>,
}

impl DeepView for AxisMapping {
    type V = AxisMappingView;

    open spec fn deep_view(&self) -> AxisMappingView {
        AxisMappingView { input: self.input@, output: self.output@ }
    }
}

/// One coordinate of a location: a value on the axis called `name`.
#[derive(Clone, Debug, PartialEq, Eq)]
pub struct Dimension {
    /// Name of the axis.
    pub name: String,
    /// Value in user coordinates, as decimal text.
    pub uservalue: Option<String>,
    /// Value in design coordinates, as decimal text.
    pub xvalue: Option<String>,
    /// Second value, for anisotropic interpolation, as decimal text.
    pub yvalue: Option<String>,
}

/// The mathematical value of a [`Dimension`].
pub ghost struct DimensionView {
    pub name: Seq<char>,
    pub uservalue: Option<Seq<char>>,
    pub xvalue: Option<Seq<char>>,
    pub yvalue: Option<Seq<char>>,
}

impl DeepView for Dimension {
    type V = DimensionView;

    open spec fn deep_view(&self) -> DimensionView {
        DimensionView {
            name: self.name@,
            uservalue: self.uservalue.deep_view(),
            xvalue: self.xvalue.deep_view(),
            yvalue: self.yvalue.deep_view(),
        }
    }
}

/// What an optional decimal attribute decodes to: `Some(None)` where it is
/// missing, `Some(Some(v))` where its value `v` is a decimal number, `None`
/// where its value is something else.
pub open spec fn optional_decimal(attrs: Seq<(Seq<char>, Seq<char>)>, name: Seq<char>) -> Option<
    Option<Seq<char>>,
> {
    match attribute(attrs, name) {
        None => Some(None),
        Some(v) => if is_decimal(v) {
            Some(Some(v))
        } else {
            None
        },
    }
}

/// What a required decimal attribute decodes to: its value where it is there
/// and a decimal number.
pub open spec fn required_decimal(attrs: Seq<(Seq<char>, Seq<char>)>, name: Seq<char>) -> Option<
    Seq<char>,
> {
    match attribute(attrs, name) {
        None => None,
        Some(v) => if is_decimal(v) {
            Some(v)
        } else {
            None
        },
    }
}

/// What an optional attribute that lists decimals decodes to: `Some(None)`
/// where it is missing, the items of its value, split at spaces and commas,
/// where each is a decimal number, `None` where one is not.
pub open spec fn optional_decimals(attrs: Seq<(Seq<char>, Seq<char>)>, name: Seq<char>) -> Option<
    Option<Seq<Seq<char>>>,
> {
    match attribute(attrs, name) {
        None => Some(None),
        Some(v) => if all_decimal(fields(v)) {
            Some(Some(fields(v)))
        } else {
            None
        },
    }
}

/// Reads an optional attribute that lists decimals.
pub fn read_optional_decimals(attrs: &Vec<(String, String)>, name: &str) -> (r: Option<
    Option<Vec<String>>,
>)
    ensures
        match optional_decimals(attrs.deep_view(), name@) {
            Some(v) => r is Some && r->0.deep_view() == v,
            None => r is None,
        },
{
    match find_attribute(attrs, name) {
        None => Some(None),
        Some(v) => {
            let items = split_list(v.as_str());
            if check_all_decimal(&items) {
                Some(Some(items))
            } else {
                None
            }
        },
    }
}

/// Reads an optional decimal attribute.
pub fn read_optional_decimal(attrs: &Vec<(String, String)>, name: &str) -> (r: Option<
    Option<String>,
>)
    ensures
        match optional_decimal(attrs.deep_view(), name@) {
            Some(v) => r is Some && r->0.deep_view() == v,
            None => r is None,
        },
{
    match find_attribute(attrs, name) {
        None => Some(None),
        Some(v) => if check_decimal(v.as_str()) {
            Some(Some(v))
        } else {
            None
        },
    }
}

/// Reads a required decimal attribute.
pub fn read_required_decimal(attrs: &Vec<(String, String)>, name: &str) -> (r: Option<String>)
    ensures
        match required_decimal(attrs.deep_view(), name@) {
            Some(v) => r is Some && r->0@ == v,
            None => r is None,
        },
{
    match find_attribute(attrs, name) {
        None => None,
        Some(v) => if check_decimal(v.as_str()) {
            Some(v)
        } else {
            None
        },
    }
}

/// The attributes of the opening token at `i`; `None` where the token there
/// opens nothing.
pub open spec fn opening(ts: Seq<TokenView>, i: int) -> Option<Seq<(Seq<char>, Seq<char>)>> {
    if 0 <= i < ts.len() {
        match ts[i] {
            TokenView::Open { attributes, .. } => Some(attributes),
            _ => None,
        }
    } else {
        None
    }
}

/// The dimension that the element `s` decodes to: `name` is required, the
/// three values are optional decimals.
pub open spec fn dimension_of(ts: Seq<TokenView>, s: Span) -> Option<DimensionView> {
    match opening(ts, s.open as int) {
        Some(attrs) => match (
            attribute(attrs, "name"@),
            optional_decimal(attrs, "uservalue"@),
            optional_decimal(attrs, "xvalue"@),
            optional_decimal(attrs, "yvalue"@),
        ) {
            (Some(name), Some(uservalue), Some(xvalue), Some(yvalue)) => Some(
                DimensionView { name, uservalue, xvalue, yvalue },
            ),
            _ => None,
        },
        None => None,
    }
}

/// Decodes one `dimension` element.
pub fn decode_dimension(tokens: &Vec<Token>, s: Span) -> (r: Option<Dimension>)
    requires
        s.open < tokens.len(),
    ensures
        match dimension_of(tokens.deep_view(), s) {
            Some(v) => r is Some && r->0.deep_view() == v,
            None => r is None,
        },
{
    assert(tokens.deep_view()[s.open as int] == tokens@[s.open as int].deep_view());
    match &tokens[s.open] {
        Token::Open { attributes, .. } => {
            let name = find_attribute(attributes, "name");
            let uservalue = read_optional_decimal(attributes, "uservalue");
            let xvalue = read_optional_decimal(attributes, "xvalue");
            let yvalue = read_optional_decimal(attributes, "yvalue");
            match (name, uservalue, xvalue, yvalue) {
                (Some(name), Some(uservalue), Some(xvalue), Some(yvalue)) => Some(
                    Dimension { name, uservalue, xvalue, yvalue },
                ),
                _ => None,
            }
        },
        _ => None,
    }
}

/// The items that the elements `spans` decode to under `item`, in order;
/// `None` where one of them does not decode.
pub open spec fn each<T>(spans: Seq<Span>, item: spec_fn(Span) -> Option<T>) -> Option<Seq<T>>
    decreases spans.len(),
{
    if spans.len() == 0 {
        Some(Seq::empty())
    } else {
        match (each(spans.drop_last(), item), item(spans.last())) {
            (Some(init), Some(last)) => Some(init.push(last)),
            _ => None,
        }
    }
}

/// The list inside the one child called `wrapper`: its children called
/// `item`. `Some(None)` where no child is called `wrapper`, `None` where
/// several are.
pub open spec fn unwrapped(
    ts: Seq<TokenView>,
    kids: Seq<Span>,
    wrapper: Seq<char>,
    item: Seq<char>,
) -> Option<Option<Seq<Span>>> {
    let found = named(ts, kids, wrapper);
    if found.len() == 0 {
        Some(None)
    } else if found.len() == 1 {
        match children(ts, found[0].open as int + 1, found[0].close as int) {
            Some(inner) => Some(Some(named(ts, inner, item))),
            None => None,
        }
    } else {
        None
    }
}

/// Unwraps the list held by the one child called `wrapper`.
pub fn unwrap_list(tokens: &Vec<Token>, kids: &Vec<Span>, wrapper: &str, item: &str) -> (r: Option<
    Option<Vec<Span>>,
>)
    requires
        spans_within(kids@, tokens.len() as int),
    ensures
        match unwrapped(tokens.deep_view(), kids@, wrapper@, item@) {
            Some(Some(v)) => r is Some && r->0 is Some && r->0->0@ == v && spans_within(
                v,
                tokens.len() as int,
            ),
            Some(None) => r == Some(None::<Vec<Span>>),
            None => r is None,
        },
{
    let found = select_named(tokens, kids, wrapper);
    if found.len() == 0 {
        Some(None)
    } else if found.len() == 1 {
        let w = found[0];
        match child_spans(tokens, w.open + 1, w.close) {
            Some(inner) => Some(Some(select_named(tokens, &inner, item))),
            None => None,
        }
    } else {
        None
    }
}

/// Decodes a list of `dimension` elements.
pub fn decode_dimensions(tokens: &Vec<Token>, spans: &Vec<Span>) -> (r: Option<Vec<Dimension>>)
    requires
        spans_within(spans@, tokens.len() as int),
    ensures
        match each(spans@, |s: Span| dimension_of(tokens.deep_view(), s)) {
            Some(v) => r is Some && r->0.deep_view() == v,
            None => r is None,
        },
{
    let ghost ts = tokens.deep_view();
    let ghost item = |s: Span| dimension_of(ts, s);
    let mut out: Vec<Dimension> = Vec::new();
    let mut k: usize = 0;
    while k < spans.len()
        invariant
            ts == tokens.deep_view(),
            item == (|s: Span| dimension_of(ts, s)),
            k <= spans.len(),
            spans_within(spans@, tokens.len() as int),
            each(spans@.take(k as int), item) == Some(out.deep_view()),
        decreases spans.len() - k,
    {
        assert(spans@.take(k as int + 1).drop_last() =~= spans@.take(k as int));
        assert(spans@.take(k as int + 1).last() == spans@[k as int]);
        match decode_dimension(tokens, spans[k]) {
            Some(d) => {
                let ghost before = out.deep_view();
                out.push(d);
                assert(out.deep_view() =~= before.push(d.deep_view()));
            },
            None => {
                proof {
                    lemma_each_fails(spans@, item, k as int);
                }
                return None;
            },
        }
        k = k + 1;
    }
    assert(spans@.take(spans.len() as int) =~= spans@);
    Some(out)
}

/// Where one element does not decode, the list does not.
pub proof fn lemma_each_fails<T>(spans: Seq<Span>, item: spec_fn(Span) -> Option<T>, k: int)
    requires
        0 <= k < spans.len(),
        item(spans[k]) is None,
    ensures
        each(spans, item) is None,
    decreases spans.len(),
{
    if k < spans.len() - 1 {
        lemma_each_fails(spans.drop_last(), item, k);
    }
}


/// The mapping that the element `s` decodes to: `input` and `output` are
/// required decimals.
pub open spec fn mapping_of(ts: Seq<TokenView>, s: Span) -> Option<AxisMappingView> {
    match opening(ts, s.open as int) {
        Some(attrs) => match (required_decimal(attrs, "input"@), required_decimal(attrs, "output"@)) {
            (Some(input), Some(output)) => Some(AxisMappingView { input, output }),
            _ => None,
        },
        None => None,
    }
}

/// Decodes one `map` element that holds a mapping.
pub fn decode_mapping(tokens: &Vec<Token>, s: Span) -> (r: Option<AxisMapping>)
    requires
        s.open < tokens.len(),
    ensures
        match mapping_of(tokens.deep_view(), s) {
            Some(v) => r is Some && r->0.deep_view() == v,
            None => r is None,
        },
{
    assert(tokens.deep_view()[s.open as int] == tokens@[s.open as int].deep_view());
    match &tokens[s.open] {
        Token::Open { attributes, .. } => {
            let input = read_required_decimal(attributes, "input");
            let output = read_required_decimal(attributes, "output");
            match (input, output) {
                (Some(input), Some(output)) => Some(AxisMapping { input, output }),
                _ => None,
            }
        },
        _ => None,
    }
}

/// Decodes a list of `map` elements.
pub fn decode_mappings(tokens: &Vec<Token>, spans: &Vec<Span>) -> (r: Option<Vec<AxisMapping>>)
    requires
        spans_within(spans@, tokens.len() as int),
    ensures
        match each(spans@, |s: Span| mapping_of(tokens.deep_view(), s)) {
            Some(v) => r is Some && r->0.deep_view() == v,
            None => r is None,
        },
{
    let ghost ts = tokens.deep_view();
    let ghost item = |s: Span| mapping_of(ts, s);
    let mut out: Vec<AxisMapping> = Vec::new();
    let mut k: usize = 0;
    while k < spans.len()
        invariant
            ts == tokens.deep_view(),
            item == (|s: Span| mapping_of(ts, s)),
            k <= spans.len(),
            spans_within(spans@, tokens.len() as int),
            each(spans@.take(k as int), item) == Some(out.deep_view()),
        decreases spans.len() - k,
    {
        assert(spans@.take(k as int + 1).drop_last() =~= spans@.take(k as int));
        assert(spans@.take(k as int + 1).last() == spans@[k as int]);
        match decode_mapping(tokens, spans[k]) {
            Some(d) => {
                let ghost before = out.deep_view();
                out.push(d);
                assert(out.deep_view() =~= before.push(d.deep_view()));
            },
            None => {
                proof {
                    lemma_each_fails(spans@, item, k as int);
                }
                return None;
            },
        }
        k = k + 1;
    }
    assert(spans@.take(spans.len() as int) =~= spans@);
    Some(out)
}

/// What a flag attribute decodes to: `Some(false)` where it is missing,
/// `Some(true)` for `true` and `1`, `Some(false)` for `false` and `0`, `None`
/// for any other value.
pub open spec fn flag(attrs: Seq<(Seq<char>, Seq<char>)>, name: Seq<char>) -> Option<bool> {
    match attribute(attrs, name) {
        None => Some(false),
        Some(v) => if v == "true"@ || v == "1"@ {
            Some(true)
        } else if v == "false"@ || v == "0"@ {
            Some(false)
        } else {
            None
        },
    }
}

/// Reads a flag attribute.
pub fn read_flag(attrs: &Vec<(String, String)>, name: &str) -> (r: Option<bool>)
    ensures
        r == flag(attrs.deep_view(), name@),
{
    match find_attribute(attrs, name) {
        None => Some(false),
        Some(v) => if v == "true".to_owned() || v == "1".to_owned() {
            Some(true)
        } else if v == "false".to_owned() || v == "0".to_owned() {
            Some(false)
        } else {
            None
        },
    }
}

/// An axis of variation, continuous (with a range) or discrete.
#[derive(Clone, Debug, PartialEq, Eq)]
pub struct Axis {
    /// Name of the axis, by which locations refer to it.
    pub name: String,
    /// Four-letter tag.
    pub tag: String,
    /// Default value in user coordinates, as decimal text.
    pub default: String,
    /// Whether interfaces should hide this axis.
    pub hidden: bool,
    /// Lower end of a continuous axis, as decimal text.
    pub minimum: Option<String>,
    /// Upper end of a continuous axis, as decimal text.
    pub maximum: Option<String>,
    /// The values of a discrete axis, each as decimal text.
    pub values: Option<Vec<String>>,
    /// Mappings from user coordinates to design coordinates.
    pub map: Option<Vec<AxisMapping>>,
}

/// The mathematical value of an [`Axis`].
pub ghost struct AxisView {
    pub name: Seq<char>,
    pub tag: Seq<char>,
    pub default: Seq<char>,
    pub hidden: bool,
    pub minimum: Option<Seq<char>>,
    pub maximum: Option<Seq<char>>,
    pub values: Option<Seq<Seq<char>>>,
    pub map: Option<Seq<AxisMappingView>>,
}

impl DeepView for Axis {
    type V = AxisView;

    open spec fn deep_view(&self) -> AxisView {
        AxisView {
            name: self.name@,
            tag: self.tag@,
            default: self.default@,
            hidden: self.hidden,
            minimum: self.minimum.deep_view(),
            maximum: self.maximum.deep_view(),
            values: self.values.deep_view(),
            map: self.map.deep_view(),
        }
    }
}

/// The mappings among the children `kids` of an axis: `Some(None)` where no
/// child is called `map`, else what that child's `map` children decode to.
pub open spec fn mappings_of(ts: Seq<TokenView>, kids: Seq<Span>) -> Option<
    Option<Seq<AxisMappingView>>,
> {
    match unwrapped(ts, kids, "map"@, "map"@) {
        Some(Some(spans)) => match each(spans, |s: Span| mapping_of(ts, s)) {
            Some(v) => Some(Some(v)),
            None => None,
        },
        Some(None) => Some(None),
        None => None,
    }
}

/// The axis that the element `s` decodes to. `name` and `tag` are required
/// and `default` is a required decimal; `hidden` is a flag; `minimum` and
/// `maximum` are optional decimals; `values` is an optional list of
/// decimals.
pub open spec fn axis_of(ts: Seq<TokenView>, s: Span) -> Option<AxisView> {
    match (opening(ts, s.open as int), children(ts, s.open as int + 1, s.close as int)) {
        (Some(attrs), Some(kids)) => match (
            attribute(attrs, "name"@),
            attribute(attrs, "tag"@),
            required_decimal(attrs, "default"@),
            flag(attrs, "hidden"@),
            optional_decimal(attrs, "minimum"@),
            optional_decimal(attrs, "maximum"@),
            optional_decimals(attrs, "values"@),
            mappings_of(ts, kids),
        ) {
            (
                Some(name),
                Some(tag),
                Some(default),
                Some(hidden),
                Some(minimum),
                Some(maximum),
                Some(values),
                Some(map),
            ) => Some(AxisView { name, tag, default, hidden, minimum, maximum, values, map }),
            _ => None,
        },
        _ => None,
    }
}

/// Decodes the optional list of mappings of an axis.
pub fn decode_axis_map(tokens: &Vec<Token>, kids: &Vec<Span>) -> (r: Option<
    Option<Vec<AxisMapping>>,
>)
    requires
        spans_within(kids@, tokens.len() as int),
    ensures
        match mappings_of(tokens.deep_view(), kids@) {
            Some(v) => r is Some && r->0.deep_view() == v,
            None => r is None,
        },
{
    match unwrap_list(tokens, kids, "map", "map") {
        Some(Some(spans)) => match decode_mappings(tokens, &spans) {
            Some(v) => Some(Some(v)),
            None => None,
        },
        Some(None) => Some(None),
        None => None,
    }
}

/// Decodes one `axis` element.
pub fn decode_axis(tokens: &Vec<Token>, s: Span) -> (r: Option<Axis>)
    requires
        s.open < s.close < tokens.len(),
    ensures
        match axis_of(tokens.deep_view(), s) {
            Some(v) => r is Some && r->0.deep_view() == v,
            None => r is None,
        },
{
    assert(tokens.deep_view()[s.open as int] == tokens@[s.open as int].deep_view());
    match (&tokens[s.open], child_spans(tokens, s.open + 1, s.close)) {
        (Token::Open { attributes, .. }, Some(kids)) => {
            let name = find_attribute(attributes, "name");
            let tag = find_attribute(attributes, "tag");
            let default = read_required_decimal(attributes, "default");
            let hidden = read_flag(attributes, "hidden");
            let minimum = read_optional_decimal(attributes, "minimum");
            let maximum = read_optional_decimal(attributes, "maximum");
            let values = read_optional_decimals(attributes, "values");
            let map = decode_axis_map(tokens, &kids);
            match (name, tag, default, hidden, minimum, maximum, values, map) {
                (
                    Some(name),
                    Some(tag),
                    Some(default),
                    Some(hidden),
                    Some(minimum),
                    Some(maximum),
                    Some(values),
                    Some(map),
                ) => Some(Axis { name, tag, default, hidden, minimum, maximum, values, map }),
                _ => None,
            }
        },
        _ => None,
    }
}

/// Decodes a list of `axis` elements.
pub fn decode_axis_list(tokens: &Vec<Token>, spans: &Vec<Span>) -> (r: Option<Vec<Axis>>)
    requires
        spans_within(spans@, tokens.len() as int),
    ensures
        match each(spans@, |s: Span| axis_of(tokens.deep_view(), s)) {
            Some(v) => r is Some && r->0.deep_view() == v,
            None => r is None,
        },
{
    let ghost ts = tokens.deep_view();
    let ghost item = |s: Span| axis_of(ts, s);
    let mut out: Vec<Axis> = Vec::new();
    let mut k: usize = 0;
    while k < spans.len()
        invariant
            ts == tokens.deep_view(),
            item == (|s: Span| axis_of(ts, s)),
            k <= spans.len(),
            spans_within(spans@, tokens.len() as int),
            each(spans@.take(k as int), item) == Some(out.deep_view()),
        decreases spans.len() - k,
    {
        assert(spans@.take(k as int + 1).drop_last() =~= spans@.take(k as int));
        assert(spans@.take(k as int + 1).last() == spans@[k as int]);
        match decode_axis(tokens, spans[k]) {
            Some(d) => {
                let ghost before = out.deep_view();
                out.push(d);
                assert(out.deep_view() =~= before.push(d.deep_view()));
            },
            None => {
                proof {
                    lemma_each_fails(spans@, item, k as int);
                }
                return None;
            },
        }
        k = k + 1;
    }
    assert(spans@.take(spans.len() as int) =~= spans@);
    Some(out)
}

/// The location among the children `kids` of a source or an instance: what
/// the `dimension` children of its one `location` child decode to.
pub open spec fn location_of(ts: Seq<TokenView>, kids: Seq<Span>) -> Option<Seq<DimensionView>> {
    match unwrapped(ts, kids, "location"@, "dimension"@) {
        Some(Some(spans)) => each(spans, |s: Span| dimension_of(ts, s)),
        _ => None,
    }
}

/// Decodes the location of a source or an instance: unwraps the one
/// `location` child among `kids` into its dimensions.
pub fn deserialize_location(tokens: &Vec<Token>, kids: &Vec<Span>) -> (r: Option<Vec<Dimension>>)
    requires
        spans_within(kids@, tokens.len() as int),
    ensures
        match location_of(tokens.deep_view(), kids@) {
            Some(v) => r is Some && r->0.deep_view() == v,
            None => r is None,
        },
{
    match unwrap_list(tokens, kids, "location", "dimension") {
        Some(Some(spans)) => decode_dimensions(tokens, &spans),
        _ => None,
    }
}

/// A font source that contributes to the design space at a location.
#[derive(Clone, Debug, PartialEq, Eq)]
pub struct Source {
    /// Family name of the source font.
    pub familyname: Option<String>,
    /// Style name of the source font.
    pub stylename: Option<String>,
    /// A name by which the source can be referred to.
    pub name: Option<String>,
    /// Path of the source file, relative to the document.
    pub filename: String,
    /// Layer of the source file; the foreground layer where absent.
    pub layer: Option<String>,
    /// Location in design coordinates.
    pub location: Vec<Dimension>,
}

/// The mathematical value of a [`Source`].
pub ghost struct SourceView {
    pub familyname: Option<Seq<char>>,
    pub stylename: Option<Seq<char>>,
    pub name: Option<Seq<char>>,
    pub filename: Seq<char>,
    pub layer: Option<Seq<char>>,
    pub location: Seq<DimensionView>,
}

impl DeepView for Source {
    type V = SourceView;

    open spec fn deep_view(&self) -> SourceView {
        SourceView {
            familyname: self.familyname.deep_view(),
            stylename: self.stylename.deep_view(),
            name: self.name.deep_view(),
            filename: self.filename@,
            layer: self.layer.deep_view(),
            location: self.location.deep_view(),
        }
    }
}

/// The source that the element `s` decodes to. Only `filename` and the
/// location are required; a missing attribute decodes to `None`.
pub open spec fn source_of(ts: Seq<TokenView>, s: Span) -> Option<SourceView> {
    match (opening(ts, s.open as int), children(ts, s.open as int + 1, s.close as int)) {
        (Some(attrs), Some(kids)) => match (attribute(attrs, "filename"@), location_of(ts, kids)) {
            (Some(filename), Some(location)) => Some(
                SourceView {
                    familyname: attribute(attrs, "familyname"@),
                    stylename: attribute(attrs, "stylename"@),
                    name: attribute(attrs, "name"@),
                    filename,
                    layer: attribute(attrs, "layer"@),
                    location,
                },
            ),
            _ => None,
        },
        _ => None,
    }
}

/// Decodes one `source` element.
pub fn decode_source(tokens: &Vec<Token>, s: Span) -> (r: Option<Source>)
    requires
        s.open < s.close < tokens.len(),
    ensures
        match source_of(tokens.deep_view(), s) {
            Some(v) => r is Some && r->0.deep_view() == v,
            None => r is None,
        },
{
    assert(tokens.deep_view()[s.open as int] == tokens@[s.open as int].deep_view());
    match (&tokens[s.open], child_spans(tokens, s.open + 1, s.close)) {
        (Token::Open { attributes, .. }, Some(kids)) => {
            let filename = find_attribute(attributes, "filename");
            let location = deserialize_location(tokens, &kids);
            match (filename, location) {
                (Some(filename), Some(location)) => Some(
                    Source {
                        familyname: find_attribute(attributes, "familyname"),
                        stylename: find_attribute(attributes, "stylename"),
                        name: find_attribute(attributes, "name"),
                        filename,
                        layer: find_attribute(attributes, "layer"),
                        location,
                    },
                ),
                _ => None,
            }
        },
        _ => None,
    }
}

/// Decodes a list of `source` elements.
pub fn decode_source_list(tokens: &Vec<Token>, spans: &Vec<Span>) -> (r: Option<Vec<Source>>)
    requires
        spans_within(spans@, tokens.len() as int),
    ensures
        match each(spans@, |s: Span| source_of(tokens.deep_view(), s)) {
            Some(v) => r is Some && r->0.deep_view() == v,
            None => r is None,
        },
{
    let ghost ts = tokens.deep_view();
    let ghost item = |s: Span| source_of(ts, s);
    let mut out: Vec<Source> = Vec::new();
    let mut k: usize = 0;
    while k < spans.len()
        invariant
            ts == tokens.deep_view(),
            item == (|s: Span| source_of(ts, s)),
            k <= spans.len(),
            spans_within(spans@, tokens.len() as int),
            each(spans@.take(k as int), item) == Some(out.deep_view()),
        decreases spans.len() - k,
    {
        assert(spans@.take(k as int + 1).drop_last() =~= spans@.take(k as int));
        assert(spans@.take(k as int + 1).last() == spans@[k as int]);
        match decode_source(tokens, spans[k]) {
            Some(d) => {
                let ghost before = out.deep_view();
                out.push(d);
                assert(out.deep_view() =~= before.push(d.deep_view()));
            },
            None => {
                proof {
                    lemma_each_fails(spans@, item, k as int);
                }
                return None;
            },
        }
        k = k + 1;
    }
    assert(spans@.take(spans.len() as int) =~= spans@);
    Some(out)
}

/// The content of the one child called `lib`, token for token: empty where
/// no child is called so, `None` where several are.
pub open spec fn lib_of(ts: Seq<TokenView>, kids: Seq<Span>) -> Option<Seq<TokenView>> {
    let found = named(ts, kids, "lib"@);
    if found.len() == 0 {
        Some(Seq::empty())
    } else if found.len() == 1 {
        Some(ts.subrange(found[0].open as int + 1, found[0].close as int))
    } else {
        None
    }
}

/// Copies a list of attributes.
pub fn copy_attributes(attrs: &Vec<(String, String)>) -> (r: Vec<(String, String)>)
    ensures
        r.deep_view() == attrs.deep_view(),
{
    let mut out: Vec<(String, String)> = Vec::new();
    let mut k: usize = 0;
    while k < attrs.len()
        invariant
            k <= attrs.len(),
            out.deep_view() == attrs.deep_view().take(k as int),
        decreases attrs.len() - k,
    {
        let ghost before = out.deep_view();
        out.push((attrs[k].0.clone(), attrs[k].1.clone()));
        assert(out.deep_view() =~= before.push(attrs@[k as int].deep_view()));
        assert(attrs.deep_view().take(k as int + 1) =~= before.push(
            attrs@[k as int].deep_view(),
        ));
        k = k + 1;
    }
    assert(attrs.deep_view().take(attrs.len() as int) =~= attrs.deep_view());
    out
}

/// Copies one token.
pub fn copy_token(t: &Token) -> (r: Token)
    ensures
        r.deep_view() == t.deep_view(),
{
    match t {
        Token::Open { name, attributes } => Token::Open {
            name: name.clone(),
            attributes: copy_attributes(attributes),
        },
        Token::Close { name } => Token::Close { name: name.clone() },
        Token::Text { content } => Token::Text { content: content.clone() },
    }
}

/// Copies the tokens from `a` (inclusive) to `b` (exclusive).
pub fn copy_tokens(tokens: &Vec<Token>, a: usize, b: usize) -> (r: Vec<Token>)
    requires
        a <= b <= tokens.len(),
    ensures
        r.deep_view() == tokens.deep_view().subrange(a as int, b as int),
{
    let ghost ts = tokens.deep_view();
    let mut out: Vec<Token> = Vec::new();
    let mut k: usize = a;
    while k < b
        invariant
            ts == tokens.deep_view(),
            a <= k <= b <= tokens.len(),
            out.deep_view() == ts.subrange(a as int, k as int),
        decreases b - k,
    {
        let ghost before = out.deep_view();
        let t = copy_token(&tokens[k]);
        out.push(t);
        assert(out.deep_view() =~= before.push(t.deep_view()));
        assert(ts.subrange(a as int, k as int + 1) =~= before.push(ts[k as int]));
        k = k + 1;
    }
    out
}

/// Decodes the optional `lib` child among `kids`.
pub fn decode_lib(tokens: &Vec<Token>, kids: &Vec<Span>) -> (r: Option<Vec<Token>>)
    requires
        spans_within(kids@, tokens.len() as int),
    ensures
        match lib_of(tokens.deep_view(), kids@) {
            Some(v) => r is Some && r->0.deep_view() == v,
            None => r is None,
        },
{
    let found = select_named(tokens, kids, "lib");
    if found.len() == 0 {
        let out: Vec<Token> = Vec::new();
        assert(out.deep_view() =~= Seq::<TokenView>::empty());
        Some(out)
    } else if found.len() == 1 {
        let w = found[0];
        Some(copy_tokens(tokens, w.open + 1, w.close))
    } else {
        None
    }
}

/// A named point of the design space from which a static font is made.
#[derive(Clone, Debug, PartialEq, Eq)]
pub struct Instance {
    /// Family name of the instance font.
    pub familyname: Option<String>,
    /// Style name of the instance font.
    pub stylename: Option<String>,
    /// A name by which the instance can be referred to.
    pub name: Option<String>,
    /// Path of the instance file, relative to the document.
    pub filename: Option<String>,
    /// PostScript name of the instance font.
    pub postscriptfontname: Option<String>,
    /// Family name used for style mapping.
    pub stylemapfamilyname: Option<String>,
    /// Style name used for style mapping.
    pub stylemapstylename: Option<String>,
    /// Location in design coordinates.
    pub location: Vec<Dimension>,
    /// Metadata of this instance: the content of its `lib` element, kept
    /// token for token and not interpreted.
    pub lib: Vec<Token>,
}

/// The mathematical value of an [`Instance`].
pub ghost struct InstanceView {
    pub familyname: Option<Seq<char>>,
    pub stylename: Option<Seq<char>>,
    pub name: Option<Seq<char>>,
    pub filename: Option<Seq<char>>,
    pub postscriptfontname: Option<Seq<char>>,
    pub stylemapfamilyname: Option<Seq<char>>,
    pub stylemapstylename: Option<Seq<char>>,
    pub location: Seq<DimensionView>,
    pub lib: Seq<TokenView>,
}

impl DeepView for Instance {
    type V = InstanceView;

    open spec fn deep_view(&self) -> InstanceView {
        InstanceView {
            familyname: self.familyname.deep_view(),
            stylename: self.stylename.deep_view(),
            name: self.name.deep_view(),
            filename: self.filename.deep_view(),
            postscriptfontname: self.postscriptfontname.deep_view(),
            stylemapfamilyname: self.stylemapfamilyname.deep_view(),
            stylemapstylename: self.stylemapstylename.deep_view(),
            location: self.location.deep_view(),
            lib: self.lib.deep_view(),
        }
    }
}

/// The instance that the element `s` decodes to. Only the location is
/// required; a missing attribute decodes to `None`, a missing `lib` to no
/// tokens.
pub open spec fn instance_of(ts: Seq<TokenView>, s: Span) -> Option<InstanceView> {
    match (opening(ts, s.open as int), children(ts, s.open as int + 1, s.close as int)) {
        (Some(attrs), Some(kids)) => match (location_of(ts, kids), lib_of(ts, kids)) {
            (Some(location), Some(lib)) => Some(
                InstanceView {
                    familyname: attribute(attrs, "familyname"@),
                    stylename: attribute(attrs, "stylename"@),
                    name: attribute(attrs, "name"@),
                    filename: attribute(attrs, "filename"@),
                    postscriptfontname: attribute(attrs, "postscriptfontname"@),
                    stylemapfamilyname: attribute(attrs, "stylemapfamilyname"@),
                    stylemapstylename: attribute(attrs, "stylemapstylename"@),
                    location,
                    lib,
                },
            ),
            _ => None,
        },
        _ => None,
    }
}

/// Decodes one `instance` element.
pub fn decode_instance(tokens: &Vec<Token>, s: Span) -> (r: Option<Instance>)
    requires
        s.open < s.close < tokens.len(),
    ensures
        match instance_of(tokens.deep_view(), s) {
            Some(v) => r is Some && r->0.deep_view() == v,
            None => r is None,
        },
{
    assert(tokens.deep_view()[s.open as int] == tokens@[s.open as int].deep_view());
    match (&tokens[s.open], child_spans(tokens, s.open + 1, s.close)) {
        (Token::Open { attributes, .. }, Some(kids)) => {
            let location = deserialize_location(tokens, &kids);
            let lib = decode_lib(tokens, &kids);
            match (location, lib) {
                (Some(location), Some(lib)) => Some(
                    Instance {
                        familyname: find_attribute(attributes, "familyname"),
                        stylename: find_attribute(attributes, "stylename"),
                        name: find_attribute(attributes, "name"),
                        filename: find_attribute(attributes, "filename"),
                        postscriptfontname: find_attribute(attributes, "postscriptfontname"),
                        stylemapfamilyname: find_attribute(attributes, "stylemapfamilyname"),
                        stylemapstylename: find_attribute(attributes, "stylemapstylename"),
                        location,
                        lib,
                    },
                ),
                _ => None,
            }
        },
        _ => None,
    }
}

/// Decodes a list of `instance` elements.
pub fn decode_instance_list(tokens: &Vec<Token>, spans: &Vec<Span>) -> (r: Option<Vec<Instance>>)
    requires
        spans_within(spans@, tokens.len() as int),
    ensures
        match each(spans@, |s: Span| instance_of(tokens.deep_view(), s)) {
            Some(v) => r is Some && r->0.deep_view() == v,
            None => r is None,
        },
{
    let ghost ts = tokens.deep_view();
    let ghost item = |s: Span| instance_of(ts, s);
    let mut out: Vec<Instance> = Vec::new();
    let mut k: usize = 0;
    while k < spans.len()
        invariant
            ts == tokens.deep_view(),
            item == (|s: Span| instance_of(ts, s)),
            k <= spans.len(),
            spans_within(spans@, tokens.len() as int),
            each(spans@.take(k as int), item) == Some(out.deep_view()),
        decreases spans.len() - k,
    {
        assert(spans@.take(k as int + 1).drop_last() =~= spans@.take(k as int));
        assert(spans@.take(k as int + 1).last() == spans@[k as int]);
        match decode_instance(tokens, spans[k]) {
            Some(d) => {
                let ghost before = out.deep_view();
                out.push(d);
                assert(out.deep_view() =~= before.push(d.deep_view()));
            },
            None => {
                proof {
                    lemma_each_fails(spans@, item, k as int);
                }
                return None;
            },
        }
        k = k + 1;
    }
    assert(spans@.take(spans.len() as int) =~= spans@);
    Some(out)
}


/// The axes among the children `kids` of the root: what the `axis` children
/// of its one `axes` child decode to. The `axes` child is required.
pub open spec fn axes_of(ts: Seq<TokenView>, kids: Seq<Span>) -> Option<Seq<AxisView>> {
    match unwrapped(ts, kids, "axes"@, "axis"@) {
        Some(Some(spans)) => each(spans, |s: Span| axis_of(ts, s)),
        Some(None) => None,
        None => None,
    }
}

/// Unwraps the one `axes` child among `kids` into the list of its
/// `axis` children, decoded.
pub fn deserialize_axes(tokens: &Vec<Token>, kids: &Vec<Span>) -> (r: Option<Vec<Axis>>)
    requires
        spans_within(kids@, tokens.len() as int),
    ensures
        match axes_of(tokens.deep_view(), kids@) {
            Some(v) => r is Some && r->0.deep_view() == v,
            None => r is None,
        },
{
    match unwrap_list(tokens, kids, "axes", "axis") {
        Some(Some(spans)) => decode_axis_list(tokens, &spans),
        Some(None) => None,
        None => None,
    }
}

/// The sources among the children `kids` of the root: what the `source`
/// children of its one `sources` child decode to. The `sources` child is
/// required.
pub open spec fn sources_of(ts: Seq<TokenView>, kids: Seq<Span>) -> Option<Seq<SourceView>> {
    match unwrapped(ts, kids, "sources"@, "source"@) {
        Some(Some(spans)) => each(spans, |s: Span| source_of(ts, s)),
        Some(None) => None,
        None => None,
    }
}

/// Unwraps the one `sources` child among `kids` into the list of its
/// `source` children, decoded.
pub fn deserialize_sources(tokens: &Vec<Token>, kids: &Vec<Span>) -> (r: Option<Vec<Source>>)
    requires
        spans_within(kids@, tokens.len() as int),
    ensures
        match sources_of(tokens.deep_view(), kids@) {
            Some(v) => r is Some && r->0.deep_view() == v,
            None => r is None,
        },
{
    match unwrap_list(tokens, kids, "sources", "source") {
        Some(Some(spans)) => decode_source_list(tokens, &spans),
        Some(None) => None,
        None => None,
    }
}

/// The instances among the children `kids` of the root: what the `instance`
/// children of its one `instances` child decode to, and no instance where no
/// child is called `instances`.
pub open spec fn instances_of(ts: Seq<TokenView>, kids: Seq<Span>) -> Option<Seq<InstanceView>> {
    match unwrapped(ts, kids, "instances"@, "instance"@) {
        Some(Some(spans)) => each(spans, |s: Span| instance_of(ts, s)),
        Some(None) => Some(Seq::empty()),
        None => None,
    }
}

/// Unwraps the one `instances` child among `kids` into the list of its
/// `instance` children, decoded.
pub fn deserialize_instances(tokens: &Vec<Token>, kids: &Vec<Span>) -> (r: Option<Vec<Instance>>)
    requires
        spans_within(kids@, tokens.len() as int),
    ensures
        match instances_of(tokens.deep_view(), kids@) {
            Some(v) => r is Some && r->0.deep_view() == v,
            None => r is None,
        },
{
    match unwrap_list(tokens, kids, "instances", "instance") {
        Some(Some(spans)) => decode_instance_list(tokens, &spans),
        Some(None) => {
            let out: Vec<Instance> = Vec::new();
            assert(out.deep_view() =~= Seq::<InstanceView>::empty());
            Some(out)
        },
        None => None,
    }
}

/// A design-space document: axes, the sources placed on them, the instances
/// derived from them, and metadata.
#[derive(Clone, Debug, PartialEq, Eq)]
pub struct DesignSpaceDocument {
    /// Version of the document format, as decimal text.
    pub format: String,
    /// The axes, in order of precedence.
    pub axes: Vec<Axis>,
    /// The sources.
    pub sources: Vec<Source>,
    /// The instances; may be empty.
    pub instances: Vec<Instance>,
    /// Metadata of the document: the content of its `lib` element, kept token
    /// for token and not interpreted.
    pub lib: Vec<Token>,
}

/// The mathematical value of a [`DesignSpaceDocument`].
pub ghost struct DocumentView {
    pub format: Seq<char>,
    pub axes: Seq<AxisView>,
    pub sources: Seq<SourceView>,
    pub instances: Seq<InstanceView>,
    pub lib: Seq<TokenView>,
}

impl DeepView for DesignSpaceDocument {
    type V = DocumentView;

    open spec fn deep_view(&self) -> DocumentView {
        DocumentView {
            format: self.format@,
            axes: self.axes.deep_view(),
            sources: self.sources.deep_view(),
            instances: self.instances.deep_view(),
            lib: self.lib.deep_view(),
        }
    }
}

/// Why a document could not be decoded.
#[derive(Clone, Copy, Debug, PartialEq, Eq, Structural)]
pub enum LoadError {
    /// The text is not well-formed markup.
    Markup,
    /// The markup is well formed, but is not a design-space document: a
    /// required attribute or element is missing, an element that may occur
    /// once occurs twice, or a number or a flag is not one.
    Structure,
}

/// The document that the root element `s` decodes to.
pub open spec fn root_of(ts: Seq<TokenView>, s: Span) -> Option<DocumentView> {
    match (opening(ts, s.open as int), children(ts, s.open as int + 1, s.close as int)) {
        (Some(attrs), Some(kids)) => match (
            required_decimal(attrs, "format"@),
            axes_of(ts, kids),
            sources_of(ts, kids),
            instances_of(ts, kids),
            lib_of(ts, kids),
        ) {
            (Some(format), Some(axes), Some(sources), Some(instances), Some(lib)) => Some(
                DocumentView { format, axes, sources, instances, lib },
            ),
            _ => None,
        },
        _ => None,
    }
}

/// The document that a token sequence decodes to: the sequence holds one
/// element, it is called `designspace`, and it decodes. `None` for every
/// other sequence.
pub open spec fn document_of(ts: Seq<TokenView>) -> Option<DocumentView> {
    match children(ts, 0, ts.len() as int) {
        Some(top) => if top.len() == 1 && named(ts, top, "designspace"@).len() == 1 {
            root_of(ts, top[0])
        } else {
            None
        },
        None => None,
    }
}

/// Decodes the root element.
pub fn decode_root(tokens: &Vec<Token>, s: Span) -> (r: Option<DesignSpaceDocument>)
    requires
        s.open < s.close < tokens.len(),
    ensures
        match root_of(tokens.deep_view(), s) {
            Some(v) => r is Some && r->0.deep_view() == v,
            None => r is None,
        },
{
    assert(tokens.deep_view()[s.open as int] == tokens@[s.open as int].deep_view());
    match (&tokens[s.open], child_spans(tokens, s.open + 1, s.close)) {
        (Token::Open { attributes, .. }, Some(kids)) => {
            let format = read_required_decimal(attributes, "format");
            let axes = deserialize_axes(tokens, &kids);
            let sources = deserialize_sources(tokens, &kids);
            let instances = deserialize_instances(tokens, &kids);
            let lib = decode_lib(tokens, &kids);
            match (format, axes, sources, instances, lib) {
                (Some(format), Some(axes), Some(sources), Some(instances), Some(lib)) => Some(
                    DesignSpaceDocument { format, axes, sources, instances, lib },
                ),
                _ => None,
            }
        },
        _ => None,
    }
}

impl DesignSpaceDocument {
    /// Decodes a document from its tokens. Succeeds exactly on the sequences
    /// on which [`document_of`] is defined, with that document, which is
    /// valid.
    pub fn from_tokens(tokens: &Vec<Token>) -> (r: Result<DesignSpaceDocument, LoadError>)
        ensures
            match document_of(tokens.deep_view()) {
                Some(v) => r is Ok && r->Ok_0.deep_view() == v,
                None => r == Err::<DesignSpaceDocument, LoadError>(LoadError::Structure),
            },
            r is Ok ==> valid_document(r->Ok_0.deep_view()),
    {
        proof {
            if document_of(tokens.deep_view()) is Some {
                assert(tokens.deep_view().len() == tokens.len());
                lemma_decoded_is_valid(tokens.deep_view());
            }
        }
        match child_spans(tokens, 0, tokens.len()) {
            Some(top) => {
                let roots = select_named(tokens, &top, "designspace");
                if top.len() == 1 && roots.len() == 1 {
                    match decode_root(tokens, top[0]) {
                        Some(d) => Ok(d),
                        None => Err(LoadError::Structure),
                    }
                } else {
                    Err(LoadError::Structure)
                }
            },
            None => Err(LoadError::Structure),
        }
    }
}

/// A document without an `instances` element has no instances: the missing
/// wrapper is no error.
pub proof fn lemma_missing_instances_is_empty(ts: Seq<TokenView>, kids: Seq<Span>)
    requires
        named(ts, kids, "instances"@).len() == 0,
    ensures
        instances_of(ts, kids) == Some(Seq::<InstanceView>::empty()),
{
}

/// A missing flag decodes to `false`, and a missing optional decimal to
/// `None`, which differs from every number.
pub proof fn lemma_missing_attribute(attrs: Seq<(Seq<char>, Seq<char>)>, name: Seq<char>)
    requires
        attribute(attrs, name) is None,
    ensures
        flag(attrs, name) == Some(false),
        optional_decimal(attrs, name) == Some(None::<Seq<char>>),
{
}

/// A wrapper around exactly one element decodes to a list of exactly one
/// item, the one that the element decodes to.
pub proof fn lemma_single_item_list<T>(spans: Seq<Span>, item: spec_fn(Span) -> Option<T>)
    requires
        spans.len() == 1,
        item(spans[0]) is Some,
    ensures
        each(spans, item) == Some(seq![item(spans[0])->0]),
{
    assert(each(spans.drop_last(), item) == Some(Seq::<T>::empty()));
    assert(Seq::<T>::empty().push(item(spans[0])->0) =~= seq![item(spans[0])->0]);
}


impl Default for AxisMapping {
    /// The mapping of zero to zero.
    fn default() -> (r: Self)
        ensures
            r.deep_view() == (AxisMappingView { input: "0"@, output: "0"@ }),
    {
        AxisMapping { input: "0".to_owned(), output: "0".to_owned() }
    }
}

impl Default for Dimension {
    /// A dimension without a name and without values.
    fn default() -> (r: Self)
        ensures
            r.deep_view() == (DimensionView {
                name: Seq::empty(),
                uservalue: None,
                xvalue: None,
                yvalue: None,
            }),
    {
        Dimension { name: String::new(), uservalue: None, xvalue: None, yvalue: None }
    }
}

impl Default for Axis {
    /// An axis without a name or a tag, with the default value zero, shown,
    /// without range, values or mappings.
    fn default() -> (r: Self)
        ensures
            r.deep_view() == (AxisView {
                name: Seq::empty(),
                tag: Seq::empty(),
                default: "0"@,
                hidden: false,
                minimum: None,
                maximum: None,
                values: None,
                map: None,
            }),
    {
        Axis {
            name: String::new(),
            tag: String::new(),
            default: "0".to_owned(),
            hidden: false,
            minimum: None,
            maximum: None,
            values: None,
            map: None,
        }
    }
}

impl Default for Source {
    /// A source without names, with an empty file name and an empty
    /// location.
    fn default() -> (r: Self)
        ensures
            r.deep_view() == (SourceView {
                familyname: None,
                stylename: None,
                name: None,
                filename: Seq::empty(),
                layer: None,
                location: Seq::empty(),
            }),
    {
        let r = Source {
            familyname: None,
            stylename: None,
            name: None,
            filename: String::new(),
            layer: None,
            location: Vec::new(),
        };
        assert(r.location.deep_view() =~= Seq::<DimensionView>::empty());
        r
    }
}

impl Default for Instance {
    /// An instance without names, with an empty location and no metadata.
    fn default() -> (r: Self)
        ensures
            r.deep_view() == (InstanceView {
                familyname: None,
                stylename: None,
                name: None,
                filename: None,
                postscriptfontname: None,
                stylemapfamilyname: None,
                stylemapstylename: None,
                location: Seq::empty(),
                lib: Seq::empty(),
            }),
    {
        let r = Instance {
            familyname: None,
            stylename: None,
            name: None,
            filename: None,
            postscriptfontname: None,
            stylemapfamilyname: None,
            stylemapstylename: None,
            location: Vec::new(),
            lib: Vec::new(),
        };
        assert(r.location.deep_view() =~= Seq::<DimensionView>::empty());
        assert(r.lib.deep_view() =~= Seq::<TokenView>::empty());
        r
    }
}

impl Default for DesignSpaceDocument {
    /// The document of format zero without axes, sources, instances or
    /// metadata.
    fn default() -> (r: Self)
        ensures
            r.deep_view() == (DocumentView {
                format: "0"@,
                axes: Seq::empty(),
                sources: Seq::empty(),
                instances: Seq::empty(),
                lib: Seq::empty(),
            }),
    {
        let r = DesignSpaceDocument {
            format: "0".to_owned(),
            axes: Vec::new(),
            sources: Vec::new(),
            instances: Vec::new(),
            lib: Vec::new(),
        };
        assert(r.axes.deep_view() =~= Seq::<AxisView>::empty());
        assert(r.sources.deep_view() =~= Seq::<SourceView>::empty());
        assert(r.instances.deep_view() =~= Seq::<InstanceView>::empty());
        assert(r.lib.deep_view() =~= Seq::<TokenView>::empty());
        r
    }
}

} // verus!
