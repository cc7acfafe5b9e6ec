//! The values that a template sees, and the filters that templates apply to
//! the stories and epics of a release.

pub mod utils;

use crate::template::utils::SeqIterator;
use vstd::prelude::*;

verus! {

/// One named entry of a mapping.
#[derive(Debug, PartialEq, Eq)]
pub struct Field {
    pub name: String,
    pub value: Value,
}

/// A value as a template sees it.
#[derive(Debug, PartialEq, Eq)]
pub enum Value {
    Undefined,
    Null,
    Bool(bool),
    Number(i64),
    String(String),
    List(Vec<Value>),
    Object(Vec<Field>),
}

/// Why a filter refused its arguments.
#[derive(Debug, PartialEq, Eq, Clone, Copy, Structural)]
pub enum FilterError {
    /// A string was expected.
    ExpectedString,
    /// A number was expected.
    ExpectedNumber,
    /// A list was expected.
    ExpectedList,
    /// `all_done` or `not_all_done` was expected.
    ExpectedState,
    /// A number that counts something cannot be negative or beyond what the
    /// machine can count.
    NumberOutOfRange,
    /// An attribute was asked of an undefined value.
    UndefinedValue,
}

/// Appends `c` to `text` with `String::push`.
///
/// Trusted: the text grows by this one character at its end.
#[verifier::external_body]
fn push_char(text: &mut String, c: char)
    ensures
        final(text)@ == old(text)@.push(c),
{
    text.push(c)
}

/// The value of the first field of `fields` that is named `name`.
pub open spec fn field_value(fields: Seq<Field>, name: Seq<char>) -> Option<Value>
    decreases fields.len(),
{
    if fields.len() == 0 {
        None
    } else if fields[0].name@ == name {
        Some(fields[0].value)
    } else {
        field_value(fields.drop_first(), name)
    }
}

/// What a template gets when it asks `value` for the attribute `name`: of a
/// mapping the field of that name, undefined where there is none or where the
/// value is no mapping. An undefined value has no attributes to ask for.
pub open spec fn attr_of(value: Value, name: Seq<char>) -> Result<Value, FilterError> {
    match value {
        Value::Undefined => Err(FilterError::UndefinedValue),
        Value::Object(fields) => match field_value(fields@, name) {
            Some(found) => Ok(found),
            None => Ok(Value::Undefined),
        },
        _ => Ok(Value::Undefined),
    }
}

/// The value that a lookup found, undefined where it found none.
pub open spec fn found_or_undefined(found: Option<&Value>) -> Value {
    match found {
        Some(value) => *value,
        None => Value::Undefined,
    }
}

/// The value of the first field of `fields` that is named `name`.
pub fn find_field<'a>(fields: &'a Vec<Field>, name: &String) -> (r: Option<&'a Value>)
    ensures
        match r {
            Some(found) => field_value(fields@, name@) == Some(*found),
            None => field_value(fields@, name@) is None,
        },
{
    let mut i: usize = 0;
    proof {
        assert(fields@.skip(0) =~= fields@);
    }
    while i < fields.len()
        invariant
            i <= fields@.len(),
            field_value(fields@, name@) == field_value(fields@.skip(i as int), name@),
        decreases fields@.len() - i,
    {
        proof {
            assert(fields@.skip(i as int)[0] == fields@[i as int]);
            assert(fields@.skip(i as int).drop_first() =~= fields@.skip(i + 1));
        }
        if fields[i].name == *name {
            return Some(&fields[i].value);
        }
        i += 1;
    }
    proof {
        assert(fields@.skip(fields@.len() as int).len() == 0);
    }
    None
}

impl Value {
    /// Asks the value for the attribute `name`. `None` stands for undefined.
    pub fn get_attr<'a>(&'a self, name: &String) -> (r: Result<Option<&'a Value>, FilterError>)
        ensures
            match r {
                Ok(found) => attr_of(*self, name@) == Ok::<Value, FilterError>(
                    found_or_undefined(found),
                ),
                Err(error) => attr_of(*self, name@) == Err::<Value, FilterError>(error),
            },
    {
        match self {
            Value::Undefined => Err(FilterError::UndefinedValue),
            Value::Object(fields) => Ok(find_field(fields, name)),
            _ => Ok(None),
        }
    }
}


/// Whether two values are the same plain value: both undefined, both null,
/// the same truth value, the same number or the same text. A list or a
/// mapping is the same as nothing.
pub open spec fn same_scalar(a: Value, b: Value) -> bool {
    match (a, b) {
        (Value::Undefined, Value::Undefined) => true,
        (Value::Null, Value::Null) => true,
        (Value::Bool(x), Value::Bool(y)) => x == y,
        (Value::Number(x), Value::Number(y)) => x == y,
        (Value::String(x), Value::String(y)) => x@ == y@,
        _ => false,
    }
}

/// Whether two values are the same plain value.
pub fn is_same_scalar(a: &Value, b: &Value) -> (r: bool)
    ensures
        r == same_scalar(*a, *b),
{
    match (a, b) {
        (Value::Undefined, Value::Undefined) => true,
        (Value::Null, Value::Null) => true,
        (Value::Bool(x), Value::Bool(y)) => *x == *y,
        (Value::Number(x), Value::Number(y)) => *x == *y,
        (Value::String(x), Value::String(y)) => *x == *y,
        _ => false,
    }
}

/// By what a filter tells the items of a list apart.
#[derive(Debug, PartialEq, Eq)]
pub enum Criterion {
    /// The item carries the label of this name.
    Label(String),
    /// The item belongs to the epic of this identifier.
    Epic(i64),
    /// The item is an epic whose stories are all done.
    AllDone,
}

/// Whether an entry of a list of labels is named `label`.
pub open spec fn names_label(entry: Value, label: Seq<char>) -> bool {
    attr_of(entry, "name"@) matches Ok(Value::String(name)) && name@ == label
}

/// Whether one entry of a list of labels is named `label`.
pub open spec fn any_named(labels: Seq<Value>, label: Seq<char>) -> bool {
    exists|i: int| 0 <= i < labels.len() && names_label(#[trigger] labels[i], label)
}

/// Whether `item` carries the label `label`: its attribute `labels` is a list
/// and one entry of it is named so.
pub open spec fn carries_label(item: Value, label: Seq<char>) -> Result<bool, FilterError> {
    match attr_of(item, "labels"@) {
        Err(error) => Err(error),
        Ok(Value::List(labels)) => Ok(any_named(labels@, label)),
        Ok(_) => Err(FilterError::ExpectedList),
    }
}

/// Whether `item` belongs to epic `epic`: its attribute `epic_id` is that
/// number.
pub open spec fn in_epic(item: Value, epic: i64) -> Result<bool, FilterError> {
    match attr_of(item, "epic_id"@) {
        Err(error) => Err(error),
        Ok(found) => Ok(found == Value::Number(epic)),
    }
}

/// Whether all stories of `epic` are done: under its attribute `stats`, the
/// attributes `num_stories_total` and `num_stories_done` are the same.
pub open spec fn all_done(epic: Value) -> Result<bool, FilterError> {
    match attr_of(epic, "stats"@) {
        Err(error) => Err(error),
        Ok(stats) => match attr_of(stats, "num_stories_total"@) {
            Err(error) => Err(error),
            Ok(total) => match attr_of(stats, "num_stories_done"@) {
                Err(error) => Err(error),
                Ok(done) => Ok(same_scalar(total, done)),
            },
        },
    }
}

/// Whether `item` carries the label `label`.
fn has_label_named(item: &Value, label: &String) -> (r: Result<bool, FilterError>)
    ensures
        r == carries_label(*item, label@),
{
    let labels = match item.get_attr(&String::from_str("labels")) {
        Ok(Some(Value::List(labels))) => labels,
        Ok(_) => {
            return Err(FilterError::ExpectedList);
        },
        Err(error) => {
            return Err(error);
        },
    };
    let name = String::from_str("name");
    let mut i: usize = 0;
    while i < labels.len()
        invariant
            i <= labels@.len(),
            name@ == "name"@,
            attr_of(*item, "labels"@) == Ok::<Value, FilterError>(Value::List(*labels)),
            forall|j: int| 0 <= j < i ==> !names_label(#[trigger] labels@[j], label@),
        decreases labels@.len() - i,
    {
        match labels[i].get_attr(&name) {
            Ok(Some(Value::String(found))) => {
                if *found == *label {
                    assert(names_label(labels@[i as int], label@));
                    assert(any_named(labels@, label@));
                    return Ok(true);
                }
            },
            _ => {},
        }
        i += 1;
    }
    Ok(false)
}

impl Criterion {
    /// Whether `item` meets the criterion.
    pub open spec fn spec_test(&self, item: Value) -> Result<bool, FilterError> {
        match *self {
            Criterion::Label(label) => carries_label(item, label@),
            Criterion::Epic(epic) => in_epic(item, epic),
            Criterion::AllDone => all_done(item),
        }
    }

    /// Whether `item` meets the criterion.
    pub fn test(&self, item: &Value) -> (r: Result<bool, FilterError>)
        ensures
            r == self.spec_test(*item),
    {
        match self {
            Criterion::Label(label) => has_label_named(item, label),
            Criterion::Epic(epic) => match item.get_attr(&String::from_str("epic_id")) {
                Ok(Some(Value::Number(found))) => Ok(*found == *epic),
                Ok(_) => Ok(false),
                Err(error) => Err(error),
            },
            Criterion::AllDone => {
                let undefined = Value::Undefined;
                let stats = match item.get_attr(&String::from_str("stats")) {
                    Ok(Some(stats)) => stats,
                    Ok(None) => &undefined,
                    Err(error) => {
                        return Err(error);
                    },
                };
                let total = match stats.get_attr(&String::from_str("num_stories_total")) {
                    Ok(Some(total)) => total,
                    Ok(None) => &undefined,
                    Err(error) => {
                        return Err(error);
                    },
                };
                let done = match stats.get_attr(&String::from_str("num_stories_done")) {
                    Ok(Some(done)) => done,
                    Ok(None) => &undefined,
                    Err(error) => {
                        return Err(error);
                    },
                };
                Ok(is_same_scalar(total, done))
            },
        }
    }
}

/// The items of a list told apart by `criterion`: those that meet it and
/// those that do not, each in their order. The first item that cannot be
/// tested fails the whole.
pub open spec fn split_of(items: Seq<Value>, criterion: Criterion) -> Result<
    (Seq<Value>, Seq<Value>),
    FilterError,
>
    decreases items.len(),
{
    if items.len() == 0 {
        Ok((Seq::empty(), Seq::empty()))
    } else {
        match split_of(items.drop_last(), criterion) {
            Err(error) => Err(error),
            Ok((matched, unmatched)) => match criterion.spec_test(items.last()) {
                Err(error) => Err(error),
                Ok(true) => Ok((matched.push(items.last()), unmatched)),
                Ok(false) => Ok((matched, unmatched.push(items.last()))),
            },
        }
    }
}

/// Where a beginning of a list cannot be split, the list cannot either, for
/// the same reason.
pub proof fn lemma_split_fails_on(items: Seq<Value>, criterion: Criterion, n: int)
    requires
        0 <= n <= items.len(),
        split_of(items.take(n), criterion) is Err,
    ensures
        split_of(items, criterion) == split_of(items.take(n), criterion),
    decreases items.len() - n,
{
    if n == items.len() {
        assert(items.take(n) =~= items);
    } else {
        assert(items.take(n + 1).drop_last() =~= items.take(n));
        lemma_split_fails_on(items, criterion, n + 1);
    }
}

/// Tells the items that `iterator` has left apart by `criterion`.
pub fn split(iterator: SeqIterator, criterion: &Criterion) -> (r: Result<
    (Vec<Value>, Vec<Value>),
    FilterError,
>)
    ensures
        match r {
            Ok((matched, unmatched)) => split_of(iterator.remaining(), *criterion) == Ok::<
                (Seq<Value>, Seq<Value>),
                FilterError,
            >((matched@, unmatched@)),
            Err(error) => split_of(iterator.remaining(), *criterion) == Err::<
                (Seq<Value>, Seq<Value>),
                FilterError,
            >(error),
        },
{
    let ghost all = iterator.remaining();
    let mut rest = iterator;
    let mut matched: Vec<Value> = Vec::new();
    let mut unmatched: Vec<Value> = Vec::new();
    let ghost mut n: int = 0;
    proof {
        assert(all.take(0) =~= Seq::<Value>::empty());
        assert(all.skip(0) =~= all);
    }
    loop
        invariant
            0 <= n <= all.len(),
            all == iterator.remaining(),
            rest.remaining() == all.skip(n),
            split_of(all.take(n), *criterion) == Ok::<(Seq<Value>, Seq<Value>), FilterError>(
                (matched@, unmatched@),
            ),
        ensures
            n == all.len(),
            split_of(all, *criterion) == Ok::<(Seq<Value>, Seq<Value>), FilterError>(
                (matched@, unmatched@),
            ),
        decreases all.len() - n,
    {
        match rest.next() {
            Some(item) => {
                proof {
                    assert(item == all[n]);
                    assert(all.take(n + 1).drop_last() =~= all.take(n));
                    assert(all.take(n + 1).last() == item);
                    assert(all.skip(n).drop_first() =~= all.skip(n + 1));
                }
                match criterion.test(&item) {
                    Ok(true) => matched.push(item),
                    Ok(false) => unmatched.push(item),
                    Err(error) => {
                        proof {
                            assert(split_of(all.take(n + 1), *criterion) == Err::<
                                (Seq<Value>, Seq<Value>),
                                FilterError,
                            >(error));
                            lemma_split_fails_on(all, *criterion, n + 1);
                        }
                        return Err(error);
                    },
                }
                proof {
                    n = n + 1;
                }
            },
            None => {
                proof {
                    assert(all.take(n) =~= all);
                }
                break ;
            },
        }
    }
    Ok((matched, unmatched))
}


/// Whether `value` is a list of two lists that hold `matched` and `unmatched`.
pub open spec fn is_pair_of_lists(
    value: Value,
    matched: Seq<Value>,
    unmatched: Seq<Value>,
) -> bool {
    &&& value matches Value::List(pair)
    &&& pair@.len() == 2
    &&& pair@[0] matches Value::List(first)
    &&& first@ == matched
    &&& pair@[1] matches Value::List(second)
    &&& second@ == unmatched
}

/// Whether `answer` is what a filter hands back for `items` told apart by
/// `criterion`: the two lists, or the error of the first item that cannot be
/// tested.
pub open spec fn is_split_answer(
    items: Seq<Value>,
    criterion: Criterion,
    answer: Result<Value, FilterError>,
) -> bool {
    match split_of(items, criterion) {
        Ok((matched, unmatched)) => answer matches Ok(value) && is_pair_of_lists(
            value,
            matched,
            unmatched,
        ),
        Err(error) => answer == Err::<Value, FilterError>(error),
    }
}

/// Tells the items of the list `v` apart by `criterion` and hands back the
/// two lists as one value.
fn split_value(v: Value, criterion: &Criterion) -> (r: Result<Value, FilterError>)
    ensures
        match v {
            Value::List(items) => is_split_answer(items@, *criterion, r),
            _ => r == Err::<Value, FilterError>(FilterError::ExpectedList),
        },
{
    let iterator = match SeqIterator::new(v) {
        Ok(iterator) => iterator,
        Err(error) => {
            return Err(error);
        },
    };
    match split(iterator, criterion) {
        Ok((matched, unmatched)) => {
            let mut pair: Vec<Value> = Vec::new();
            pair.push(Value::List(matched));
            pair.push(Value::List(unmatched));
            Ok(Value::List(pair))
        },
        Err(error) => Err(error),
    }
}

/// Splits a list of stories or epics in two: those that carry the label
/// `label` and those that do not.
pub fn split_by_label(v: Value, label: Value) -> (r: Result<Value, FilterError>)
    ensures
        match (label, v) {
            (Value::String(name), Value::List(items)) => is_split_answer(
                items@,
                Criterion::Label(name),
                r,
            ),
            (Value::String(_), _) => r == Err::<Value, FilterError>(FilterError::ExpectedList),
            _ => r == Err::<Value, FilterError>(FilterError::ExpectedString),
        },
{
    match label {
        Value::String(name) => split_value(v, &Criterion::Label(name)),
        _ => Err(FilterError::ExpectedString),
    }
}

/// Splits a list of epics in two: those whose stories are all done and the
/// others.
pub fn split_by_epic_stories_state(v: Value) -> (r: Result<Value, FilterError>)
    ensures
        match v {
            Value::List(items) => is_split_answer(items@, Criterion::AllDone, r),
            _ => r == Err::<Value, FilterError>(FilterError::ExpectedList),
        },
{
    split_value(v, &Criterion::AllDone)
}

/// Splits a list of stories in two: those of the epic `epic_id` and the
/// others.
pub fn split_by_epic(v: Value, epic_id: Value) -> (r: Result<Value, FilterError>)
    ensures
        match (epic_id, v) {
            (Value::Number(epic), Value::List(items)) => is_split_answer(
                items@,
                Criterion::Epic(epic),
                r,
            ),
            (Value::Number(_), _) => r == Err::<Value, FilterError>(FilterError::ExpectedList),
            _ => r == Err::<Value, FilterError>(FilterError::ExpectedNumber),
        },
{
    match epic_id {
        Value::Number(epic) => split_value(v, &Criterion::Epic(epic)),
        _ => Err(FilterError::ExpectedNumber),
    }
}

/// Which epics a template asks for.
#[derive(Debug, PartialEq, Eq, Clone, Copy, Structural)]
pub enum EpicStoriesState {
    AllDone,
    NotAllDone,
}

/// The state that `text` names.
pub open spec fn state_named(text: Seq<char>) -> Option<EpicStoriesState> {
    if text == "all_done"@ {
        Some(EpicStoriesState::AllDone)
    } else if text == "not_all_done"@ {
        Some(EpicStoriesState::NotAllDone)
    } else {
        None
    }
}

/// Whether `answer` is what the filter on the state of the stories hands back
/// for `items`: the epics in that state, or the error of the first epic that
/// cannot be tested.
pub open spec fn is_state_answer(
    items: Seq<Value>,
    state: EpicStoriesState,
    answer: Result<Value, FilterError>,
) -> bool {
    match split_of(items, Criterion::AllDone) {
        Ok((done, open)) => answer matches Ok(Value::List(kept)) && kept@ == match state {
            EpicStoriesState::AllDone => done,
            EpicStoriesState::NotAllDone => open,
        },
        Err(error) => answer == Err::<Value, FilterError>(error),
    }
}

/// Filters the epics depending on whether all stories are done or not.
pub fn epic_stories_state(v: Value, state: Value) -> (r: Result<Value, FilterError>)
    ensures
        match state {
            Value::String(text) => match state_named(text@) {
                Some(wanted) => match v {
                    Value::List(items) => is_state_answer(items@, wanted, r),
                    _ => r == Err::<Value, FilterError>(FilterError::ExpectedList),
                },
                None => r == Err::<Value, FilterError>(FilterError::ExpectedState),
            },
            _ => r == Err::<Value, FilterError>(FilterError::ExpectedString),
        },
{
    let wanted = match state {
        Value::String(text) => {
            if text == String::from_str("all_done") {
                EpicStoriesState::AllDone
            } else if text == String::from_str("not_all_done") {
                EpicStoriesState::NotAllDone
            } else {
                return Err(FilterError::ExpectedState);
            }
        },
        _ => {
            return Err(FilterError::ExpectedString);
        },
    };
    let iterator = match SeqIterator::new(v) {
        Ok(iterator) => iterator,
        Err(error) => {
            return Err(error);
        },
    };
    match split(iterator, &Criterion::AllDone) {
        Ok((done, open)) => match wanted {
            EpicStoriesState::AllDone => Ok(Value::List(done)),
            EpicStoriesState::NotAllDone => Ok(Value::List(open)),
        },
        Err(error) => Err(error),
    }
}

/// Whether Markdown gives `c` a meaning of its own: the punctuation of ASCII.
pub open spec fn is_markdown_punctuation(c: char) -> bool {
    ('!' <= c <= '/') || (':' <= c <= '@') || ('[' <= c <= '`') || ('{' <= c <= '~')
}

/// `text` with a backslash before each character that Markdown gives a
/// meaning of its own.
pub open spec fn escaped(text: Seq<char>) -> Seq<char>
    decreases text.len(),
{
    if text.len() == 0 {
        Seq::empty()
    } else if is_markdown_punctuation(text.last()) {
        escaped(text.drop_last()).push('\\').push(text.last())
    } else {
        escaped(text.drop_last()).push(text.last())
    }
}

/// Escape Markdown characters - useful for epic and story titles
pub fn escape(v: Value) -> (r: Result<Value, FilterError>)
    ensures
        match v {
            Value::String(text) => r matches Ok(Value::String(out)) && out@ == escaped(text@),
            _ => r == Ok::<Value, FilterError>(v),
        },
{
    match v {
        Value::String(text) => {
            let mut out = String::new();
            proof {
                assert(text@.take(0) =~= Seq::<char>::empty());
            }
            for c in it: text.as_str().chars()
                invariant
                    it.seq() == text@,
                    out@ == escaped(text@.take(it.index() as int)),
            {
                proof {
                    let j = it.index() as int;
                    assert(text@.take(j + 1).drop_last() =~= text@.take(j));
                    assert(text@.take(j + 1).last() == c);
                }
                if ('!' <= c && c <= '/') || (':' <= c && c <= '@') || ('[' <= c && c <= '`') || (
                '{' <= c && c <= '~') {
                    push_char(&mut out, '\\');
                }
                push_char(&mut out, c);
            }
            proof {
                assert(text@.take(text@.len() as int) =~= text@);
            }
            Ok(Value::String(out))
        },
        other => Ok(other),
    }
}

/// `text` with `width` spaces after each line break.
pub open spec fn indented(text: Seq<char>, width: nat) -> Seq<char>
    decreases text.len(),
{
    if text.len() == 0 {
        Seq::empty()
    } else if text.last() == '\n' {
        indented(text.drop_last(), width).push('\n') + Seq::new(width, |i: int| ' ')
    } else {
        indented(text.drop_last(), width).push(text.last())
    }
}

/// Indent multiline text by prefixing the line breaks in the value by the
/// amount of spaces indicated, and one more.
pub fn indent(v: Value, amount: Value) -> (r: Result<Value, FilterError>)
    ensures
        match (v, amount) {
            (Value::String(text), Value::Number(n)) => if 0 <= n < usize::MAX {
                r matches Ok(Value::String(out)) && out@ == indented(text@, (n + 1) as nat)
            } else {
                r == Err::<Value, FilterError>(FilterError::NumberOutOfRange)
            },
            (Value::String(_), _) => r == Err::<Value, FilterError>(FilterError::ExpectedNumber),
            _ => r == Err::<Value, FilterError>(FilterError::ExpectedString),
        },
{
    let text = match v {
        Value::String(text) => text,
        _ => {
            return Err(FilterError::ExpectedString);
        },
    };
    let n = match amount {
        Value::Number(n) => n,
        _ => {
            return Err(FilterError::ExpectedNumber);
        },
    };
    if n < 0 || n as u128 >= usize::MAX as u128 {
        return Err(FilterError::NumberOutOfRange);
    }
    let width: usize = n as usize + 1;
    let mut out = String::new();
    proof {
        assert(text@.take(0) =~= Seq::<char>::empty());
    }
    for c in it: text.as_str().chars()
        invariant
            it.seq() == text@,
            out@ == indented(text@.take(it.index() as int), width as nat),
    {
        proof {
            let j = it.index() as int;
            assert(text@.take(j + 1).drop_last() =~= text@.take(j));
            assert(text@.take(j + 1).last() == c);
        }
        push_char(&mut out, c);
        if c == '\n' {
            let ghost line = out@;
            let mut k: usize = 0;
            while k < width
                invariant
                    k <= width,
                    out@ == line + Seq::new(k as nat, |i: int| ' '),
                decreases width - k,
            {
                push_char(&mut out, ' ');
                proof {
                    assert(out@ =~= line + Seq::new((k + 1) as nat, |i: int| ' '));
                }
                k += 1;
            }
        }
    }
    proof {
        assert(text@.take(text@.len() as int) =~= text@);
    }
    Ok(Value::String(out))
}

} // verus!
