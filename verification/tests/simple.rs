use serde_view::Error;
use serde_view::Viewable;
use serde_view::ViewFields;

#[derive(Clone, Debug)]
pub struct MyRecordDerived {
    some_string: String,
    flag: bool,
    optional_flag: Option<bool>,
}

impl Default for MyRecordDerived {
    fn default() -> Self {
        Self {
            some_string: "Hello World".to_string(),
            flag: true,
            optional_flag: None,
        }
    }
}

#[derive(Copy, Clone, Debug, Eq, PartialEq, Hash)]
pub enum MyRecordDerivedFields {
    SomeString,
    Flag,
    OptionalFlag,
}

impl ViewFields for MyRecordDerivedFields {
    fn name_spec(self) -> vstd::prelude::Seq<char> {
        unreachable!()
    }

    fn all_fields() -> vstd::prelude::Seq<Self> {
        unreachable!()
    }

    fn lemma_enumeration() {}

    fn as_str(&self) -> &'static str {
        match self {
            Self::SomeString => "some_string",
            Self::Flag => "flag",
            Self::OptionalFlag => "optional_flag",
        }
    }

    fn from_str(name: &str) -> Result<Self, Error> {
        Ok(match name {
            "some_string" => Self::SomeString,
            "flag" => Self::Flag,
            "optional_flag" => Self::OptionalFlag,
            s => return Err(Error::UnknownField(s.to_string())),
        })
    }

    fn same_field(&self, other: &Self) -> bool {
        self == other
    }
}

impl Viewable for MyRecordDerived {
    type Fields = MyRecordDerivedFields;

    fn entries(&self) -> Vec<(MyRecordDerivedFields, serde_json::Value)> {
        vec![
            (
                MyRecordDerivedFields::SomeString,
                serde_json::to_value(&self.some_string).unwrap(),
            ),
            (
                MyRecordDerivedFields::Flag,
                serde_json::to_value(self.flag).unwrap(),
            ),
            (
                MyRecordDerivedFields::OptionalFlag,
                serde_json::to_value(self.optional_flag).unwrap(),
            ),
        ]
    }
}

#[derive(Clone, Debug)]
pub struct MyRecord {
    some_string: String,
    flag: bool,
    optional_flag: Option<bool>,
}

impl Default for MyRecord {
    fn default() -> Self {
        Self {
            some_string: "Hello World".to_string(),
            flag: true,
            optional_flag: None,
        }
    }
}

#[derive(Copy, Clone, Debug, Eq, PartialEq, Hash)]
pub enum MyRecordFields {
    SomeString,
    Flag,
    OptionalFlag,
}

impl ViewFields for MyRecordFields {
    fn name_spec(self) -> vstd::prelude::Seq<char> {
        unreachable!()
    }

    fn all_fields() -> vstd::prelude::Seq<Self> {
        unreachable!()
    }

    fn lemma_enumeration() {}

    fn as_str(&self) -> &'static str {
        match self {
            Self::SomeString => "some_string",
            Self::Flag => "flag",
            Self::OptionalFlag => "optional_flag",
        }
    }

    fn from_str(name: &str) -> Result<Self, Error> {
        Ok(match name {
            "some_string" => Self::SomeString,
            "flag" => Self::Flag,
            "optional_flag" => Self::OptionalFlag,
            s => return Err(Error::UnknownField(s.to_string())),
        })
    }

    fn same_field(&self, other: &Self) -> bool {
        self == other
    }
}

impl Viewable for MyRecord {
    type Fields = MyRecordFields;

    fn entries(&self) -> Vec<(MyRecordFields, serde_json::Value)> {
        vec![
            (
                MyRecordFields::SomeString,
                serde_json::to_value(&self.some_string).unwrap(),
            ),
            (
                MyRecordFields::Flag,
                serde_json::to_value(self.flag).unwrap(),
            ),
            (
                MyRecordFields::OptionalFlag,
                serde_json::to_value(self.optional_flag).unwrap(),
            ),
        ]
    }
}

fn obj(pairs: Vec<(&str, serde_json::Value)>) -> serde_json::Value {
    let mut m = serde_json::Map::new();
    for (k, v) in pairs {
        m.insert(k.to_string(), v);
    }
    serde_json::Value::Object(m)
}

#[test]
fn test_manual() {
    assert_eq!(
        MyRecord::default()
            .as_view()
            .with_fields(vec![<MyRecord as Viewable>::Fields::SomeString])
            .unwrap()
            .to_value(),
        obj(vec![(
            "some_string",
            serde_json::Value::String("Hello World".to_string()),
        )])
    )
}

#[test]
fn test_derived() {
    assert_eq!(
        MyRecordDerived::default()
            .as_view()
            .with_fields(vec![<MyRecordDerived as Viewable>::Fields::SomeString])
            .unwrap()
            .to_value(),
        obj(vec![(
            "some_string",
            serde_json::Value::String("Hello World".to_string()),
        )])
    );

    assert_eq!(
        MyRecordDerived::default()
            .as_view()
            .with_fields(vec![MyRecordDerivedFields::SomeString])
            .unwrap()
            .to_value(),
        obj(vec![(
            "some_string",
            serde_json::Value::String("Hello World".to_string()),
        )])
    );

    assert_eq!(
        MyRecordDerived::default()
            .as_view()
            .with_fields(
                serde_view::from_str_iter::<MyRecordDerivedFields>(&vec!["some_string", "flag"])
                    .unwrap()
            )
            .unwrap()
            .to_value(),
        obj(vec![
            ("flag", serde_json::Value::Bool(true)),
            (
                "some_string",
                serde_json::Value::String("Hello World".to_string()),
            ),
        ])
    );
}

#[test]
fn test_all() {
    // if no fields are selected, this means: all
    let mut value = MyRecordDerived::default();
    value.optional_flag = Some(false);

    assert_eq!(
        value.as_view().to_value(),
        obj(vec![
            ("flag", serde_json::Value::Bool(true)),
            (
                "some_string",
                serde_json::Value::String("Hello World".to_string()),
            ),
            ("optional_flag", serde_json::Value::Bool(false)),
        ])
    );
}
