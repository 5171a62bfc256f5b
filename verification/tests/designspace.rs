use designspace::designspace::{
    Axis, AxisMapping, DesignSpaceDocument, Dimension, Instance, LoadError, Source,
};
use designspace::markup::{child_spans, find_attribute, find_close, select_named, Span, Token};
use designspace::number::{check_decimal, join_list, split_list};
use designspace::reader::{assemble, tokenize, Event};
use designspace::writer::write_document;
use plist::Value;

const SINGLE_WGHT: &str = r#"<?xml version='1.0' encoding='UTF-8'?>
<designspace format="4.1">
  <axes>
    <axis tag="wght" name="Weight" minimum="400" maximum="600" default="500">
      <map>
        <map input="400" output="100"/>
      </map>
    </axis>
  </axes>
  <sources>
    <source filename="Wght.ufo" name="Test Wght 100" familyname="Test" stylename="Regular">
      <location>
        <dimension name="Weight" xvalue="100"/>
      </location>
    </source>
  </sources>
  <instances>
    <instance name="Test Regular" familyname="Test" stylename="Regular" filename="instances/Test-Regular.ufo">
      <location>
        <dimension name="Weight" xvalue="100"/>
      </location>
    </instance>
  </instances>
</designspace>
"#;

const WGHT: &str = r#"<?xml version='1.0' encoding='UTF-8'?>
<designspace format="4.1">
  <axes>
    <axis tag="wght" name="Weight" minimum="400" maximum="700" default="400"/>
  </axes>
  <sources>
    <source filename="TestFamily-Regular.ufo" name="Test Family Regular" familyname="Test Family" stylename="Regular">
      <location>
        <dimension name="Weight" xvalue="400"/>
      </location>
    </source>
    <source filename="TestFamily-Bold.ufo" name="Test Family Bold" familyname="Test Family" stylename="Bold">
      <location>
        <dimension name="Weight" xvalue="700"/>
      </location>
    </source>
  </sources>
  <instances>
    <instance name="Test Family Regular" familyname="Test Family" stylename="Regular" filename="instance_ufos/TestFamily-Regular.ufo" postscriptfontname="TestFamily-Regular" stylemapfamilyname="Test Family" stylemapstylename="regular">
      <location>
        <dimension name="Weight" xvalue="400"/>
      </location>
      <lib>
        <dict>
          <key>com.schriftgestaltung.customParameters</key>
          <array>
            <array>
              <string>xHeight</string>
              <string>536</string>
            </array>
            <array>
              <string>codePageRanges</string>
              <array>
                <integer>2</integer>
              </array>
            </array>
          </array>
        </dict>
      </lib>
    </instance>
    <instance name="Test Family Bold" familyname="Test Family" stylename="Bold" filename="instance_ufos/TestFamily-Bold.ufo">
      <location>
        <dimension name="Weight" xvalue="700"/>
      </location>
    </instance>
  </instances>
  <lib>
    <dict>
      <key>org.linebender.hasLoadedLibCorrectly</key>
      <string>Absolutely!</string>
    </dict>
  </lib>
</designspace>
"#;

const NO_INSTANCES: &str = r#"<?xml version='1.0' encoding='UTF-8'?>
<designspace format="4.1">
  <axes>
    <axis tag="wght" name="Weight" minimum="400" maximum="700" default="400"/>
  </axes>
  <sources>
    <source filename="TestFamily-Regular.ufo">
      <location>
        <dimension name="Weight" xvalue="400"/>
      </location>
    </source>
  </sources>
</designspace>
"#;

const OPTIONAL_SOURCE_NAMES: &str = r#"<designspace format="4.1">
  <axes>
    <axis tag="wght" name="Weight" minimum="400" maximum="700" default="400"/>
  </axes>
  <sources>
    <source filename="TestFamily-Regular.ufo" familyname="Test Family" stylename="Regular">
      <location>
        <dimension name="Weight" xvalue="400"/>
      </location>
    </source>
    <source filename="TestFamily-Bold.ufo" name="Test Family Bold" familyname="Test Family" stylename="Bold">
      <location>
        <dimension name="Weight" xvalue="700"/>
      </location>
    </source>
  </sources>
</designspace>
"#;

const OPTIONAL_INSTANCE_NAMES: &str = r#"<designspace format="4.1">
  <axes>
    <axis tag="wght" name="Weight" minimum="400" maximum="700" default="400"/>
  </axes>
  <sources>
    <source filename="TestFamily-Regular.ufo">
      <location>
        <dimension name="Weight" xvalue="400"/>
      </location>
    </source>
  </sources>
  <instances>
    <instance name="Test Family Regular" familyname="Test Family" stylename="Regular">
      <location>
        <dimension name="Weight" xvalue="400"/>
      </location>
    </instance>
    <instance familyname="Test Family" stylename="Bold">
      <location>
        <dimension name="Weight" xvalue="700"/>
      </location>
    </instance>
  </instances>
</designspace>
"#;

fn number(text: &str) -> f32 {
    text.parse::<f32>().unwrap()
}

fn dim_name_xvalue(name: &str, xvalue: &str) -> Dimension {
    Dimension { name: name.to_string(), uservalue: None, xvalue: Some(xvalue.to_string()), yvalue: None }
}

fn lib_value(lib: &Vec<Token>) -> Value {
    let text = write_document(lib);
    Value::from_reader_xml(std::io::Cursor::new(text.into_bytes())).unwrap()
}

fn open(name: &str, attributes: &[(&str, &str)]) -> Token {
    Token::Open {
        name: name.to_string(),
        attributes: attributes.iter().map(|(n, v)| (n.to_string(), v.to_string())).collect(),
    }
}

fn close(name: &str) -> Token {
    Token::Close { name: name.to_string() }
}

fn text(content: &str) -> Token {
    Token::Text { content: content.to_string() }
}

#[test]
fn read_single_wght() {
    let ds = DesignSpaceDocument::load(SINGLE_WGHT).unwrap();
    assert_eq!(1, ds.axes.len());
    let axis = &ds.axes[0];
    assert_eq!(axis.minimum.as_deref().map(number), Some(400.));
    assert_eq!(axis.maximum.as_deref().map(number), Some(600.));
    assert_eq!(number(&axis.default), 500.);
    assert_eq!(
        &vec![AxisMapping { input: "400".to_string(), output: "100".to_string() }],
        ds.axes[0].map.as_ref().unwrap()
    );
    let mapping = &ds.axes[0].map.as_ref().unwrap()[0];
    assert_eq!(number(&mapping.input), 400.);
    assert_eq!(number(&mapping.output), 100.);
    assert_eq!(1, ds.sources.len());
    let weight_100 = dim_name_xvalue("Weight", "100");
    assert_eq!(vec![weight_100.clone()], ds.sources[0].location);
    assert_eq!(ds.sources[0].location[0].xvalue.as_deref().map(number), Some(100.));
    assert_eq!(1, ds.instances.len());
    assert_eq!(vec![weight_100], ds.instances[0].location);
}

#[test]
fn read_wght_variable() {
    let ds = DesignSpaceDocument::load(WGHT).unwrap();
    assert_eq!(1, ds.axes.len());
    assert!(ds.axes[0].map.is_none());
    assert_eq!(
        vec![
            ("TestFamily-Regular.ufo".to_string(), vec![dim_name_xvalue("Weight", "400")]),
            ("TestFamily-Bold.ufo".to_string(), vec![dim_name_xvalue("Weight", "700")]),
        ],
        ds.sources
            .into_iter()
            .map(|s| (s.filename, s.location))
            .collect::<Vec<(String, Vec<Dimension>)>>()
    );
}

#[test]
fn load_with_no_instances() {
    let ds = DesignSpaceDocument::load(NO_INSTANCES).unwrap();
    assert!(ds.instances.is_empty());
    assert!(ds.lib.is_empty());
}

#[test]
fn load_with_no_source_name() {
    let ds = DesignSpaceDocument::load(OPTIONAL_SOURCE_NAMES).unwrap();
    assert!(ds.sources[0].name.is_none());
    assert_eq!(ds.sources[1].name.as_deref(), Some("Test Family Bold"));
}

#[test]
fn load_with_no_instance_name() {
    let ds = DesignSpaceDocument::load(OPTIONAL_INSTANCE_NAMES).unwrap();
    assert_eq!(ds.instances[0].name.as_deref(), Some("Test Family Regular"));
    assert!(ds.instances[1].name.is_none());
}

#[test]
fn load_lib() {
    let loaded = DesignSpaceDocument::load(WGHT).unwrap();
    let lib = lib_value(&loaded.lib).into_dictionary().unwrap();
    assert_eq!(
        lib.get("org.linebender.hasLoadedLibCorrectly"),
        Some(&Value::String("Absolutely!".into()))
    );

    let instance_lib = lib_value(&loaded.instances[0].lib).into_dictionary().unwrap();
    let params = instance_lib
        .get("com.schriftgestaltung.customParameters")
        .and_then(Value::as_array)
        .unwrap();
    assert_eq!(params[0].as_array().unwrap()[0].as_string(), Some("xHeight"));
    assert_eq!(params[0].as_array().unwrap()[1].as_string(), Some("536"));
    assert_eq!(
        params[1].as_array().unwrap()[1].as_array().unwrap()[0].as_unsigned_integer(),
        Some(2)
    );
}

#[test]
fn load_save_round_trip() {
    let ds_initial = DesignSpaceDocument::load(WGHT).unwrap();
    let saved = ds_initial.save();
    let ds_after = DesignSpaceDocument::load(&saved).expect("failed to load saved designspace");
    assert_eq!(ds_initial, ds_after);
}

#[test]
fn round_trip_of_each_sample() {
    for sample in [SINGLE_WGHT, WGHT, NO_INSTANCES, OPTIONAL_SOURCE_NAMES, OPTIONAL_INSTANCE_NAMES] {
        let first = DesignSpaceDocument::load(sample).unwrap();
        let second = DesignSpaceDocument::load(&first.save()).unwrap();
        assert_eq!(first, second);
        assert_eq!(DesignSpaceDocument::from_tokens(&first.to_tokens()), Ok(first));
    }
}

#[test]
fn lib_is_kept_token_for_token() {
    let loaded = DesignSpaceDocument::load(WGHT).unwrap();
    assert_eq!(
        loaded.lib,
        vec![
            open("dict", &[]),
            open("key", &[]),
            text("org.linebender.hasLoadedLibCorrectly"),
            close("key"),
            open("string", &[]),
            text("Absolutely!"),
            close("string"),
            close("dict"),
        ]
    );
    assert!(loaded.instances[1].lib.is_empty());
    let again = DesignSpaceDocument::load(&loaded.save()).unwrap();
    assert_eq!(again.lib, loaded.lib);
    assert_eq!(again.instances[0].lib, loaded.instances[0].lib);
    assert_eq!(lib_value(&again.instances[0].lib), lib_value(&loaded.instances[0].lib));
}

#[test]
fn missing_hidden_is_false_and_missing_minimum_is_absent() {
    let ds = DesignSpaceDocument::load(
        r#"<designspace format="5.0"><axes><axis name="Italic" tag="ital" default="0"/><axis name="Width" tag="wdth" default="100" hidden="1" minimum="0"/></axes><sources/></designspace>"#,
    )
    .unwrap();
    assert_eq!(ds.axes.len(), 2);
    assert!(!ds.axes[0].hidden);
    assert_eq!(ds.axes[0].minimum, None);
    assert_eq!(ds.axes[0].maximum, None);
    assert!(ds.axes[1].hidden);
    assert_eq!(ds.axes[1].minimum, Some("0".to_string()));
    assert_eq!(ds.format, "5.0");
    assert!(ds.sources.is_empty());
}

#[test]
fn one_axis_in_the_wrapper_is_a_list_of_one() {
    let ds = DesignSpaceDocument::load(SINGLE_WGHT).unwrap();
    assert_eq!(
        ds.axes,
        vec![Axis {
            name: "Weight".to_string(),
            tag: "wght".to_string(),
            default: "500".to_string(),
            hidden: false,
            minimum: Some("400".to_string()),
            maximum: Some("600".to_string()),
            values: None,
            map: Some(vec![AxisMapping { input: "400".to_string(), output: "100".to_string() }]),
        }]
    );
}

#[test]
fn structure_errors() {
    let cases = [
        // no name on the axis
        r#"<designspace format="4"><axes><axis tag="wght" default="1"/></axes><sources/></designspace>"#,
        // no axes
        r#"<designspace format="4"><sources/></designspace>"#,
        // no sources
        r#"<designspace format="4"><axes/></designspace>"#,
        // axes twice
        r#"<designspace format="4"><axes/><axes/><sources/></designspace>"#,
        // no format
        r#"<designspace><axes/><sources/></designspace>"#,
        // a default that is no number
        r#"<designspace format="4"><axes><axis name="W" tag="wght" default="bold"/></axes><sources/></designspace>"#,
        // a flag that is none
        r#"<designspace format="4"><axes><axis name="W" tag="wght" default="1" hidden="maybe"/></axes><sources/></designspace>"#,
        // a source without a file name
        r#"<designspace format="4"><axes/><sources><source><location/></source></sources></designspace>"#,
        // a source without a location
        r#"<designspace format="4"><axes/><sources><source filename="a.ufo"/></sources></designspace>"#,
        // another root
        r#"<document format="4"><axes/><sources/></document>"#,
        // nothing at all
        "",
    ];
    for case in cases {
        assert_eq!(DesignSpaceDocument::load(case), Err(LoadError::Structure), "{}", case);
    }
}

#[test]
fn markup_errors() {
    let cases = [
        r#"<designspace format="4"><axes></sources></designspace>"#,
        r#"<designspace format="4" format></designspace>"#,
    ];
    for case in cases {
        assert_eq!(DesignSpaceDocument::load(case), Err(LoadError::Markup), "{}", case);
    }
}

#[test]
fn unknown_elements_and_attributes_are_passed_over() {
    let ds = DesignSpaceDocument::load(
        r#"<designspace format="5.0" vendor="x"><rules><rule name="r"/></rules><axes elidedfallbackname="Regular"><axis name="W" tag="wght" default="1"><labelname>Weight</labelname></axis><note/></axes><sources/></designspace>"#,
    )
    .unwrap();
    assert_eq!(ds.axes.len(), 1);
    assert_eq!(ds.axes[0].name, "W");
    assert_eq!(ds.axes[0].map, None);
}

#[test]
fn tokens_of_a_small_document() {
    let doc = DesignSpaceDocument {
        format: "4.1".to_string(),
        axes: vec![],
        sources: vec![Source {
            familyname: None,
            stylename: None,
            name: Some("S".to_string()),
            filename: "a.ufo".to_string(),
            layer: None,
            location: vec![Dimension {
                name: "Weight".to_string(),
                uservalue: None,
                xvalue: Some("1".to_string()),
                yvalue: Some("2".to_string()),
            }],
        }],
        instances: vec![],
        lib: vec![],
    };
    assert_eq!(
        doc.to_tokens(),
        vec![
            open("designspace", &[("format", "4.1")]),
            open("axes", &[]),
            close("axes"),
            open("sources", &[]),
            open("source", &[("name", "S"), ("filename", "a.ufo")]),
            open("location", &[]),
            open("dimension", &[("name", "Weight"), ("xvalue", "1"), ("yvalue", "2")]),
            close("dimension"),
            close("location"),
            close("source"),
            close("sources"),
            open("instances", &[]),
            close("instances"),
            close("designspace"),
        ]
    );
    assert_eq!(
        doc.save(),
        "<?xml version='1.0' encoding='UTF-8'?>\n<designspace format=\"4.1\">\n  <axes/>\n  <sources>\n    <source name=\"S\" filename=\"a.ufo\">\n      <location>\n        <dimension name=\"Weight\" xvalue=\"1\" yvalue=\"2\"/>\n      </location>\n    </source>\n  </sources>\n  <instances/>\n</designspace>\n"
    );
}

#[test]
fn empty_instances_keep_their_wrapper() {
    let ds = DesignSpaceDocument::load(NO_INSTANCES).unwrap();
    let saved = ds.save();
    assert!(saved.contains("<instances/>"));
    assert!(saved.starts_with("<?xml version='1.0' encoding='UTF-8'?>\n<designspace"));
    assert!(saved.ends_with("</designspace>\n"));
    assert!(!saved.ends_with("\n\n"));
    assert!(!saved.contains("<lib"));
}

#[test]
fn reserved_characters_are_written_as_entities() {
    let tokens = vec![open("a", &[("v", "<\"x\" & 'y'>")]), text("1 < 2 & 3 > 2"), close("a")];
    let written = write_document(&tokens);
    assert_eq!(
        written,
        "<?xml version='1.0' encoding='UTF-8'?>\n<a v=\"&lt;&quot;x&quot; &amp; &apos;y&apos;&gt;\">1 &lt; 2 &amp; 3 &gt; 2</a>\n"
    );
    assert_eq!(tokenize(&written), Ok(tokens));
}

#[test]
fn instance_with_every_field() {
    let instance = Instance {
        familyname: Some("F".to_string()),
        stylename: Some("S".to_string()),
        name: Some("N".to_string()),
        filename: Some("i.ufo".to_string()),
        postscriptfontname: Some("F-S".to_string()),
        stylemapfamilyname: Some("F".to_string()),
        stylemapstylename: Some("bold".to_string()),
        location: vec![Dimension {
            name: "Weight".to_string(),
            uservalue: Some("-1.5e2".to_string()),
            xvalue: None,
            yvalue: None,
        }],
        lib: vec![open("dict", &[]), close("dict")],
    };
    let doc = DesignSpaceDocument {
        format: "5".to_string(),
        axes: vec![Axis {
            name: "Weight".to_string(),
            tag: "wght".to_string(),
            default: "0".to_string(),
            hidden: true,
            minimum: None,
            maximum: None,
            values: Some(vec!["0".to_string(), "1".to_string()]),
            map: Some(vec![]),
        }],
        sources: vec![],
        instances: vec![instance],
        lib: vec![],
    };
    let again = DesignSpaceDocument::load(&doc.save()).unwrap();
    assert_eq!(again, doc);
}

#[test]
fn tokenize_expands_and_trims() {
    assert_eq!(
        tokenize("<?xml version='1.0'?>\n<!-- c -->\n<a x=\"1\" y='&amp;'>\n  <b/>\n  <c> t </c>\n</a>\n"),
        Ok(vec![
            open("a", &[("x", "1"), ("y", "&")]),
            open("b", &[]),
            close("b"),
            open("c", &[]),
            text("t"),
            close("c"),
            close("a"),
        ])
    );
    assert_eq!(tokenize("<a><b></a>"), Err(LoadError::Markup));
}

#[test]
fn spans_and_names() {
    let tokens = vec![
        open("a", &[("k", "v"), ("k", "w")]),
        open("b", &[]),
        close("b"),
        text("t"),
        open("c", &[]),
        open("b", &[]),
        close("b"),
        close("c"),
        open("b", &[]),
        close("b"),
        close("a"),
    ];
    assert_eq!(find_close(&tokens, 1), Some(10));
    assert_eq!(find_close(&tokens, 5), Some(7));
    assert_eq!(find_close(&tokens, 11), None);
    let top = child_spans(&tokens, 0, tokens.len()).unwrap();
    assert_eq!(top, vec![Span { open: 0, close: 10 }]);
    let kids = child_spans(&tokens, 1, 10).unwrap();
    assert_eq!(
        kids,
        vec![Span { open: 1, close: 2 }, Span { open: 4, close: 7 }, Span { open: 8, close: 9 }]
    );
    assert_eq!(
        select_named(&tokens, &kids, "b"),
        vec![Span { open: 1, close: 2 }, Span { open: 8, close: 9 }]
    );
    assert_eq!(select_named(&tokens, &kids, "d"), vec![]);
    assert_eq!(child_spans(&tokens, 1, 6), None);
    assert_eq!(child_spans(&tokens, 2, 4), None);
    if let Token::Open { attributes, .. } = &tokens[0] {
        assert_eq!(find_attribute(attributes, "k"), Some("v".to_string()));
        assert_eq!(find_attribute(attributes, "j"), None);
    } else {
        unreachable!();
    }
}

#[test]
fn decimal_numbers() {
    for good in ["0", "400", "-1", "+1", "4.1", ".5", "5.", "-0.25", "1e5", "1E-5", "2.5e+10", "007"] {
        assert!(check_decimal(good), "{}", good);
        assert!(good.parse::<f32>().is_ok(), "{}", good);
    }
    for bad in ["", "-", "+", ".", "e5", "1e", "1e+", "1.2.3", "bold", " 1", "1 ", "1,5", "--1", "0x10", "1e5.0"] {
        assert!(!check_decimal(bad), "{}", bad);
    }
}

#[test]
fn discrete_values_are_split_at_spaces_and_commas() {
    let ds = DesignSpaceDocument::load(
        r#"<designspace format="5.0"><axes><axis name="Italic" tag="ital" default="0" values="0 1"/><axis name="Grade" tag="GRAD" default="0" values=" -50, 0 ,,50.5 "/><axis name="X" tag="XXXX" default="0" values=""/></axes><sources/></designspace>"#,
    )
    .unwrap();
    assert_eq!(ds.axes[0].values, Some(vec!["0".to_string(), "1".to_string()]));
    assert_eq!(
        ds.axes[1].values,
        Some(vec!["-50".to_string(), "0".to_string(), "50.5".to_string()])
    );
    assert_eq!(ds.axes[2].values, Some(vec![]));
    assert_eq!(split_list("a,b c"), vec!["a".to_string(), "b".to_string(), "c".to_string()]);
    assert_eq!(split_list(" , "), Vec::<String>::new());
    assert_eq!(join_list(&vec!["1".to_string(), "2.5".to_string(), "3".to_string()]), "1 2.5 3");
    assert_eq!(join_list(&vec![]), "");
    assert!(ds.save().contains("values=\"-50 0 50.5\""));
    assert_eq!(
        DesignSpaceDocument::load(
            r#"<designspace format="5.0"><axes><axis name="Italic" tag="ital" default="0" values="0 one"/></axes><sources/></designspace>"#
        ),
        Err(LoadError::Structure)
    );
}

#[test]
fn valid_documents_are_told_from_others() {
    for sample in [SINGLE_WGHT, WGHT, NO_INSTANCES, OPTIONAL_SOURCE_NAMES, OPTIONAL_INSTANCE_NAMES] {
        let ds = DesignSpaceDocument::load(sample).unwrap();
        assert!(ds.is_valid());
        assert_eq!(DesignSpaceDocument::from_tokens(&ds.to_tokens()), Ok(ds));
    }
    let good = DesignSpaceDocument::load(WGHT).unwrap();

    let mut bad_format = good.clone();
    bad_format.format = "four".to_string();
    assert!(!bad_format.is_valid());
    assert_eq!(
        DesignSpaceDocument::from_tokens(&bad_format.to_tokens()),
        Err(LoadError::Structure)
    );

    let mut bad_axis = good.clone();
    bad_axis.axes[0].maximum = Some("".to_string());
    assert!(!bad_axis.is_valid());

    let mut bad_values = good.clone();
    bad_values.axes[0].values = Some(vec!["1".to_string(), "1 2".to_string()]);
    assert!(!bad_values.is_valid());
    assert_ne!(
        DesignSpaceDocument::from_tokens(&bad_values.to_tokens()),
        Ok(bad_values)
    );

    let mut bad_mapping = good.clone();
    bad_mapping.axes[0].map =
        Some(vec![AxisMapping { input: "1".to_string(), output: "x".to_string() }]);
    assert!(!bad_mapping.is_valid());

    let mut bad_location = good.clone();
    bad_location.sources[1].location[0].xvalue = Some("7oo".to_string());
    assert!(!bad_location.is_valid());

    let mut bad_instance = good.clone();
    bad_instance.instances[1].location[0].yvalue = Some("-".to_string());
    assert!(!bad_instance.is_valid());

    let mut open_lib = good.clone();
    open_lib.lib = vec![open("dict", &[])];
    assert!(!open_lib.is_valid());
    assert_ne!(DesignSpaceDocument::from_tokens(&open_lib.to_tokens()), Ok(open_lib));

    let mut closed_lib = good.clone();
    closed_lib.instances[0].lib = vec![close("dict")];
    assert!(!closed_lib.is_valid());

    let mut text_lib = good.clone();
    text_lib.lib = vec![text("note")];
    assert!(text_lib.is_valid());
    assert_eq!(DesignSpaceDocument::from_tokens(&text_lib.to_tokens()), Ok(text_lib));
}

#[test]
fn decoded_documents_are_valid() {
    for sample in [SINGLE_WGHT, WGHT, NO_INSTANCES, OPTIONAL_SOURCE_NAMES, OPTIONAL_INSTANCE_NAMES] {
        let tokens = tokenize(sample).unwrap();
        let first = DesignSpaceDocument::from_tokens(&tokens).unwrap();
        assert!(first.is_valid());
        let second = DesignSpaceDocument::from_tokens(&first.to_tokens()).unwrap();
        assert_eq!(first, second);
        assert_eq!(first.to_tokens(), second.to_tokens());
        assert_eq!(first.save(), second.save());
    }
}

#[test]
fn events_give_tokens() {
    let tag = Event::Open {
        name: "a".to_string(),
        attributes: vec![("k".to_string(), "v".to_string())],
    };
    let content = Event::Text { content: "t".to_string() };
    let end_tag = Event::Close { name: "a".to_string() };
    let tokens = vec![open("a", &[("k", "v")]), text("t"), close("a")];
    assert_eq!(
        assemble(&vec![
            Event::Aside,
            tag.clone(),
            content.clone(),
            Event::Aside,
            end_tag.clone(),
            Event::End,
        ]),
        Ok(tokens.clone())
    );
    // what follows the end is not looked at
    assert_eq!(
        assemble(&vec![tag.clone(), content.clone(), end_tag.clone(), Event::End, Event::Broken]),
        Ok(tokens)
    );
    assert_eq!(assemble(&vec![Event::End]), Ok(vec![]));
    assert_eq!(assemble(&vec![Event::Aside, Event::End]), Ok(vec![]));
    // the end does not come
    assert_eq!(assemble(&vec![]), Err(LoadError::Markup));
    assert_eq!(assemble(&vec![tag.clone(), end_tag.clone()]), Err(LoadError::Markup));
    // something broken comes before the end
    assert_eq!(assemble(&vec![tag, Event::Broken, end_tag, Event::End]), Err(LoadError::Markup));
    assert_eq!(assemble(&vec![Event::Broken]), Err(LoadError::Markup));
}

#[test]
fn attributes_are_read_in_order_or_not_at_all() {
    assert_eq!(
        tokenize(r#"<a x="1" y='2' z="&lt;&amp;"/>"#),
        Ok(vec![open("a", &[("x", "1"), ("y", "2"), ("z", "<&")]), close("a")])
    );
    assert_eq!(tokenize("<a/>"), Ok(vec![open("a", &[]), close("a")]));
    // a name twice
    assert_eq!(tokenize(r#"<a x="1" x="2"/>"#), Err(LoadError::Markup));
    // a value without quotes
    assert_eq!(tokenize(r#"<a x="1" y=2/>"#), Err(LoadError::Markup));
    // an entity that is none
    assert_eq!(tokenize(r#"<a x="&bogus;"/>"#), Err(LoadError::Markup));
    assert_eq!(tokenize(""), Ok(vec![]));
    assert_eq!(tokenize("t"), Ok(vec![text("t")]));
}

#[test]
fn character_data_sections_are_text() {
    assert_eq!(
        tokenize("<a><![CDATA[1 < 2 & 3]]></a>"),
        Ok(vec![open("a", &[]), text("1 < 2 & 3"), close("a")])
    );
    let ds = DesignSpaceDocument::load(
        r#"<designspace format="4"><axes/><sources/><lib><dict><key><![CDATA[k]]></key><string>v</string></dict></lib></designspace>"#,
    )
    .unwrap();
    assert_eq!(
        ds.lib,
        vec![
            open("dict", &[]),
            open("key", &[]),
            text("k"),
            close("key"),
            open("string", &[]),
            text("v"),
            close("string"),
            close("dict"),
        ]
    );
    assert_eq!(
        lib_value(&ds.lib).into_dictionary().unwrap().get("k"),
        Some(&Value::String("v".into()))
    );
}

#[test]
fn defaults() {
    let doc = DesignSpaceDocument::default();
    assert_eq!(doc.format, "0");
    assert!(doc.axes.is_empty() && doc.sources.is_empty() && doc.instances.is_empty());
    assert!(doc.lib.is_empty());
    assert!(doc.is_valid());
    assert_eq!(DesignSpaceDocument::load(&doc.save()), Ok(doc));
    let axis = Axis::default();
    assert_eq!(axis.default, "0");
    assert!(!axis.hidden);
    assert_eq!((axis.minimum, axis.maximum, axis.values, axis.map), (None, None, None, None));
    assert_eq!(AxisMapping::default(), AxisMapping { input: "0".to_string(), output: "0".to_string() });
    assert_eq!(
        Dimension::default(),
        Dimension { name: String::new(), uservalue: None, xvalue: None, yvalue: None }
    );
    assert_eq!(Source::default().filename, "");
    assert!(Source::default().location.is_empty());
    assert_eq!(Instance::default().name, None);
    assert!(Instance::default().lib.is_empty());
}
