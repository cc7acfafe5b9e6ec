use shortcut_release_helper::template::utils::SeqIterator;
use shortcut_release_helper::template::{
    epic_stories_state, escape, find_field, indent, is_same_scalar, split, split_by_epic,
    split_by_epic_stories_state, split_by_label, Criterion, Field, FilterError, Value,
};

fn text(value: &str) -> Value {
    Value::String(value.to_string())
}

fn object(fields: Vec<(&str, Value)>) -> Value {
    Value::Object(
        fields
            .into_iter()
            .map(|(name, value)| Field { name: name.to_string(), value })
            .collect(),
    )
}

fn label(name: &str) -> Value {
    object(vec![("id", Value::Number(1)), ("name", text(name))])
}

fn story(id: i64, epic_id: Value, labels: &[&str]) -> Value {
    object(vec![
        ("id", Value::Number(id)),
        ("epic_id", epic_id),
        ("labels", Value::List(labels.iter().map(|l| label(l)).collect())),
    ])
}

fn epic(id: i64, total: i64, done: i64) -> Value {
    object(vec![
        ("id", Value::Number(id)),
        (
            "stats",
            object(vec![
                ("num_stories_total", Value::Number(total)),
                ("num_stories_done", Value::Number(done)),
            ]),
        ),
    ])
}

fn pair(matched: Vec<Value>, unmatched: Vec<Value>) -> Value {
    Value::List(vec![Value::List(matched), Value::List(unmatched)])
}

#[test]
fn attribute_is_the_first_field_of_that_name() {
    let value = object(vec![("a", Value::Number(1)), ("b", Value::Null), ("a", Value::Number(2))]);
    assert_eq!(value.get_attr(&"a".to_string()), Ok(Some(&Value::Number(1))));
    assert_eq!(value.get_attr(&"b".to_string()), Ok(Some(&Value::Null)));
    assert_eq!(value.get_attr(&"c".to_string()), Ok(None));
    assert_eq!(text("a").get_attr(&"a".to_string()), Ok(None));
    assert_eq!(Value::List(Vec::new()).get_attr(&"a".to_string()), Ok(None));
    assert_eq!(Value::Undefined.get_attr(&"a".to_string()), Err(FilterError::UndefinedValue));
    let fields = vec![Field { name: "x".to_string(), value: Value::Bool(true) }];
    assert_eq!(find_field(&fields, &"x".to_string()), Some(&Value::Bool(true)));
    assert_eq!(find_field(&fields, &"y".to_string()), None);
}

#[test]
fn plain_values_are_compared() {
    assert!(is_same_scalar(&Value::Number(3), &Value::Number(3)));
    assert!(!is_same_scalar(&Value::Number(3), &Value::Number(4)));
    assert!(is_same_scalar(&text("a"), &text("a")));
    assert!(!is_same_scalar(&text("a"), &text("b")));
    assert!(is_same_scalar(&Value::Undefined, &Value::Undefined));
    assert!(is_same_scalar(&Value::Null, &Value::Null));
    assert!(!is_same_scalar(&Value::Null, &Value::Undefined));
    assert!(is_same_scalar(&Value::Bool(false), &Value::Bool(false)));
    assert!(!is_same_scalar(&Value::Number(1), &Value::Bool(true)));
    assert!(!is_same_scalar(&Value::List(Vec::new()), &Value::List(Vec::new())));
}

#[test]
fn stories_are_split_by_label() {
    let stories = Value::List(vec![
        story(1, Value::Null, &["bug", "urgent"]),
        story(2, Value::Null, &[]),
        story(3, Value::Null, &["urgent"]),
        story(4, Value::Null, &["Urgent"]),
    ]);
    assert_eq!(
        split_by_label(stories, text("urgent")),
        Ok(pair(
            vec![story(1, Value::Null, &["bug", "urgent"]), story(3, Value::Null, &["urgent"])],
            vec![story(2, Value::Null, &[]), story(4, Value::Null, &["Urgent"])],
        ))
    );
    assert_eq!(split_by_label(Value::List(Vec::new()), text("x")), Ok(pair(vec![], vec![])));
}

#[test]
fn split_by_label_refuses_other_arguments() {
    let stories = || Value::List(vec![story(1, Value::Null, &["bug"])]);
    assert_eq!(split_by_label(stories(), Value::Number(1)), Err(FilterError::ExpectedString));
    assert_eq!(split_by_label(text("x"), Value::Number(1)), Err(FilterError::ExpectedString));
    assert_eq!(split_by_label(text("x"), text("bug")), Err(FilterError::ExpectedList));
    let unlabelled = Value::List(vec![story(1, Value::Null, &["bug"]), object(vec![])]);
    assert_eq!(split_by_label(unlabelled, text("bug")), Err(FilterError::ExpectedList));
    let undefined = Value::List(vec![Value::Undefined, story(1, Value::Null, &["bug"])]);
    assert_eq!(split_by_label(undefined, text("bug")), Err(FilterError::UndefinedValue));
    let odd = Value::List(vec![object(vec![(
        "labels",
        Value::List(vec![Value::Number(3), Value::Undefined, object(vec![("name", Value::Null)])]),
    )])]);
    match split_by_label(odd, text("bug")) {
        Ok(Value::List(lists)) => {
            assert_eq!(lists[0], Value::List(Vec::new()));
        }
        _ => panic!("the list was not split"),
    }
}

#[test]
fn stories_are_split_by_epic() {
    let stories = Value::List(vec![
        story(1, Value::Number(5), &[]),
        story(2, Value::Null, &[]),
        story(3, Value::Number(6), &[]),
        story(4, Value::Number(5), &[]),
        object(vec![("id", Value::Number(9))]),
    ]);
    assert_eq!(
        split_by_epic(stories, Value::Number(5)),
        Ok(pair(
            vec![story(1, Value::Number(5), &[]), story(4, Value::Number(5), &[])],
            vec![
                story(2, Value::Null, &[]),
                story(3, Value::Number(6), &[]),
                object(vec![("id", Value::Number(9))]),
            ],
        ))
    );
    assert_eq!(split_by_epic(Value::List(vec![]), text("5")), Err(FilterError::ExpectedNumber));
    assert_eq!(split_by_epic(Value::Null, Value::Number(5)), Err(FilterError::ExpectedList));
    assert_eq!(
        split_by_epic(Value::List(vec![Value::Undefined]), Value::Number(5)),
        Err(FilterError::UndefinedValue)
    );
}

#[test]
fn epics_are_split_by_the_state_of_their_stories() {
    let epics = || Value::List(vec![epic(1, 4, 4), epic(2, 4, 3), epic(3, 0, 0)]);
    assert_eq!(
        split_by_epic_stories_state(epics()),
        Ok(pair(vec![epic(1, 4, 4), epic(3, 0, 0)], vec![epic(2, 4, 3)]))
    );
    assert_eq!(
        epic_stories_state(epics(), text("all_done")),
        Ok(Value::List(vec![epic(1, 4, 4), epic(3, 0, 0)]))
    );
    assert_eq!(
        epic_stories_state(epics(), text("not_all_done")),
        Ok(Value::List(vec![epic(2, 4, 3)]))
    );
}

#[test]
fn epic_filters_refuse_other_arguments() {
    let epics = || Value::List(vec![epic(1, 4, 4)]);
    assert_eq!(epic_stories_state(epics(), text("done")), Err(FilterError::ExpectedState));
    assert_eq!(epic_stories_state(epics(), Value::Bool(true)), Err(FilterError::ExpectedString));
    assert_eq!(epic_stories_state(text("x"), text("all_done")), Err(FilterError::ExpectedList));
    assert_eq!(epic_stories_state(text("x"), text("done")), Err(FilterError::ExpectedState));
    assert_eq!(split_by_epic_stories_state(Value::Number(1)), Err(FilterError::ExpectedList));
    let without_stats = Value::List(vec![epic(1, 4, 4), object(vec![("id", Value::Number(2))])]);
    assert_eq!(split_by_epic_stories_state(without_stats), Err(FilterError::UndefinedValue));
    let empty_stats = Value::List(vec![object(vec![("stats", object(vec![]))])]);
    assert_eq!(
        split_by_epic_stories_state(empty_stats),
        Ok(pair(vec![object(vec![("stats", object(vec![]))])], vec![]))
    );
}

#[test]
fn criterion_tests_one_item() {
    let item = story(1, Value::Number(5), &["bug"]);
    assert_eq!(Criterion::Label("bug".to_string()).test(&item), Ok(true));
    assert_eq!(Criterion::Label("feature".to_string()).test(&item), Ok(false));
    assert_eq!(Criterion::Epic(5).test(&item), Ok(true));
    assert_eq!(Criterion::Epic(6).test(&item), Ok(false));
    assert_eq!(Criterion::AllDone.test(&item), Err(FilterError::UndefinedValue));
    assert_eq!(Criterion::AllDone.test(&epic(1, 2, 2)), Ok(true));
    let iterator = SeqIterator::new(Value::List(vec![epic(1, 2, 2), epic(2, 2, 1)])).unwrap();
    assert_eq!(
        split(iterator, &Criterion::AllDone),
        Ok((vec![epic(1, 2, 2)], vec![epic(2, 2, 1)]))
    );
}

#[test]
fn markdown_punctuation_is_escaped() {
    assert_eq!(escape(text("fix [sc-1] *now*!")), Ok(text("fix \\[sc\\-1\\] \\*now\\*\\!")));
    assert_eq!(escape(text("plain text 123")), Ok(text("plain text 123")));
    assert_eq!(escape(text("")), Ok(text("")));
    let all = "!\"#$%&'()*+,-./:;<=>?@[\\]^_`{|}~";
    let expected: String = all.chars().flat_map(|c| ['\\', c]).collect();
    assert_eq!(escape(text(all)), Ok(Value::String(expected)));
    assert_eq!(escape(text("a\u{e9}z 09 AZ\n")), Ok(text("a\u{e9}z 09 AZ\n")));
    assert_eq!(escape(Value::Number(3)), Ok(Value::Number(3)));
    assert_eq!(escape(Value::Undefined), Ok(Value::Undefined));
}

#[test]
fn lines_are_indented() {
    assert_eq!(indent(text("a\nb\nc"), Value::Number(2)), Ok(text("a\n   b\n   c")));
    assert_eq!(indent(text("a\nb"), Value::Number(0)), Ok(text("a\n b")));
    assert_eq!(indent(text("one line"), Value::Number(4)), Ok(text("one line")));
    assert_eq!(indent(text("\n\n"), Value::Number(1)), Ok(text("\n  \n  ")));
    assert_eq!(indent(text(""), Value::Number(1)), Ok(text("")));
}

#[test]
fn indent_refuses_other_arguments() {
    assert_eq!(indent(Value::Number(1), Value::Number(1)), Err(FilterError::ExpectedString));
    assert_eq!(indent(Value::Null, text("1")), Err(FilterError::ExpectedString));
    assert_eq!(indent(text("a"), text("1")), Err(FilterError::ExpectedNumber));
    assert_eq!(indent(text("a"), Value::Number(-1)), Err(FilterError::NumberOutOfRange));
}

#[test]
fn items_are_handed_out_in_order() {
    let list = Value::List(vec![Value::Number(1), text("two"), Value::Null]);
    let mut iterator = SeqIterator::new(list).unwrap();
    assert_eq!(iterator.size_hint(), (3, Some(3)));
    assert_eq!(iterator.next(), Some(Value::Number(1)));
    assert_eq!(iterator.next(), Some(text("two")));
    assert_eq!(iterator.size_hint(), (3, Some(3)));
    assert_eq!(iterator.next(), Some(Value::Null));
    assert_eq!(iterator.next(), None);
    assert_eq!(iterator.next(), None);
    let mut empty = SeqIterator::new(Value::List(Vec::new())).unwrap();
    assert_eq!(empty.size_hint(), (0, Some(0)));
    assert_eq!(empty.next(), None);
}

#[test]
fn only_a_list_can_be_walked() {
    assert_eq!(SeqIterator::new(text("abc")), Err(FilterError::ExpectedList));
    assert_eq!(SeqIterator::new(Value::Undefined), Err(FilterError::ExpectedList));
    assert_eq!(SeqIterator::new(object(vec![])), Err(FilterError::ExpectedList));
}
