use serde_view::Error;
use serde_view::Viewable;
use serde_view::ViewFields;

#[derive(Clone, Debug)]
pub struct Sample {
    some_string: String,
    flag: bool,
    optional_flag: Option<bool>,
}

impl Default for Sample {
    fn default() -> Self {
        Self {
            some_string: "Hello World".to_string(),
            flag: true,
            optional_flag: None,
        }
    }
}

#[derive(Copy, Clone, Debug, Eq, PartialEq, Hash)]
pub enum SampleFields {
    SomeString,
    Flag,
    OptionalFlag,
}

impl ViewFields for SampleFields {
    fn name_spec(self) -> vstd::prelude::Seq<char> {
        unreachable!()
    }

    fn all_fields() -> vstd::prelude::Seq<Self> {
        unreachable!()
    }

    fn lemma_enumeration() {}

    fn as_str(&self) -> &'static str {
        match self {
            Self::SomeString => "some_string",
            Self::Flag => "flag",
            Self::OptionalFlag => "optional_flag",
        }
    }

    fn from_str(name: &str) -> Result<Self, Error> {
        Ok(match name {
            "some_string" => Self::SomeString,
            "flag" => Self::Flag,
            "optional_flag" => Self::OptionalFlag,
            s => return Err(Error::UnknownField(s.to_string())),
        })
    }

    fn same_field(&self, other: &Self) -> bool {
        self == other
    }
}

impl Viewable for Sample {
    type Fields = SampleFields;

    fn entries(&self) -> Vec<(SampleFields, serde_json::Value)> {
        vec![
            (
                SampleFields::SomeString,
                serde_json::to_value(&self.some_string).unwrap(),
            ),
            (SampleFields::Flag, serde_json::to_value(self.flag).unwrap()),
            (
                SampleFields::OptionalFlag,
                serde_json::to_value(self.optional_flag).unwrap(),
            ),
        ]
    }
}

#[derive(Clone, Debug, Default)]
pub struct Bare {}

#[derive(Copy, Clone, Debug, Eq, PartialEq, Hash)]
pub enum BareFields {}

impl ViewFields for BareFields {
    fn name_spec(self) -> vstd::prelude::Seq<char> {
        unreachable!()
    }

    fn all_fields() -> vstd::prelude::Seq<Self> {
        unreachable!()
    }

    fn lemma_enumeration() {}

    fn as_str(&self) -> &'static str {
        match *self {}
    }

    fn from_str(name: &str) -> Result<Self, Error> {
        Err(Error::UnknownField(name.to_string()))
    }

    fn same_field(&self, _other: &Self) -> bool {
        match *self {}
    }
}

impl Viewable for Bare {
    type Fields = BareFields;

    fn entries(&self) -> Vec<(BareFields, serde_json::Value)> {
        Vec::new()
    }
}

fn obj(pairs: Vec<(&str, serde_json::Value)>) -> serde_json::Value {
    let mut m = serde_json::Map::new();
    for (k, v) in pairs {
        m.insert(k.to_string(), v);
    }
    serde_json::Value::Object(m)
}

/// Every field variant round-trips through its canonical name.
#[test]
fn round_trip_parse_name() {
    let all = vec![
        SampleFields::SomeString,
        SampleFields::Flag,
        SampleFields::OptionalFlag,
    ];
    for v in all {
        assert_eq!(SampleFields::from_str(v.as_str()), Ok(v));
    }
}

/// A comma-delimited selection equals the same selection made from typed
/// variants, whatever the list order.
#[test]
fn parse_delimited_matches_typed_selection() {
    let record = Sample::default();
    let typed = record
        .as_view()
        .with_fields(vec![SampleFields::SomeString, SampleFields::Flag])
        .unwrap()
        .to_value();
    let parsed = serde_view::from_str_split::<SampleFields>("some_string,flag").unwrap();
    assert_eq!(parsed.len(), 2);
    assert!(parsed.contains(&SampleFields::SomeString));
    assert!(parsed.contains(&SampleFields::Flag));
    let by_names = record.as_view().with_fields(parsed).unwrap().to_value();
    let reversed = record
        .as_view()
        .with_fields(serde_view::from_str_split::<SampleFields>("flag,some_string").unwrap())
        .unwrap()
        .to_value();
    assert_eq!(by_names, typed);
    assert_eq!(reversed, typed);
}

/// An unrecognized name fails with UnknownField carrying that name, also on
/// top of a non-empty prior selection.
#[test]
fn unknown_field_fails() {
    let record = Sample::default();
    let err = match record
        .as_view()
        .add_field(SampleFields::Flag)
        .unwrap()
        .add_fields(vec!["nonexistent"])
    {
        Ok(_) => panic!("expected an unknown-field error"),
        Err(e) => e,
    };
    assert_eq!(err, Error::UnknownField("nonexistent".to_string()));
    assert_eq!(err.field_name().as_str(), "nonexistent");

    let direct = SampleFields::from_str("nonexistent").unwrap_err();
    assert_eq!(direct, Error::UnknownField("nonexistent".to_string()));
}

/// Batch resolution fails fast on the first unmatched name.
#[test]
fn batch_resolution_fails_fast() {
    let err = serde_view::from_str_iter::<SampleFields>(&vec!["flag", "bogus", "missing"])
        .unwrap_err();
    assert_eq!(err, Error::UnknownField("bogus".to_string()));
}

/// Splitting an empty input yields one empty-string segment, which fails as
/// an unknown field.
#[test]
fn empty_delimited_input_fails() {
    let err = serde_view::from_str_split::<SampleFields>("").unwrap_err();
    assert_eq!(err, Error::UnknownField("".to_string()));
}

/// With no narrowing, the view serializes to the record's own full document.
#[test]
fn full_view_equals_unfiltered() {
    let record = Sample::default();
    assert_eq!(
        record.as_view().to_value(),
        obj(vec![
            (
                "some_string",
                serde_json::Value::String("Hello World".to_string()),
            ),
            ("flag", serde_json::Value::Bool(true)),
            ("optional_flag", serde_json::Value::Null),
        ])
    );
}

/// A non-empty selection keeps exactly the selected fields' keys.
#[test]
fn selection_keeps_exactly_selected_keys() {
    let record = Sample::default();
    let value = record
        .as_view()
        .with_fields(vec![SampleFields::Flag])
        .unwrap()
        .to_value();
    assert_eq!(value, obj(vec![("flag", serde_json::Value::Bool(true))]));
}

/// add_field widens an existing selection by one variant.
#[test]
fn add_field_widens_selection() {
    let record = Sample::default();
    let value = record
        .as_view()
        .with_fields(vec!["some_string"])
        .unwrap()
        .add_field("flag")
        .unwrap()
        .to_value();
    assert_eq!(
        value,
        obj(vec![
            (
                "some_string",
                serde_json::Value::String("Hello World".to_string()),
            ),
            ("flag", serde_json::Value::Bool(true)),
        ])
    );
}

/// A record with zero fields serializes to an empty object regardless of
/// selection.
#[test]
fn empty_record_serializes_to_empty_object() {
    let record = Bare::default();
    assert_eq!(record.as_view().to_value(), obj(vec![]));
    let narrowed = record
        .as_view()
        .with_fields(Vec::<BareFields>::new())
        .unwrap()
        .to_value();
    assert_eq!(narrowed, obj(vec![]));
}
