//! Records: the value tree of one finished item of the pipeline, and the accessor that
//! finds values in it by key or by path.

use crate::description::texts;
use crate::text::{
    decimal, escape, escaped, lemma_text_less_irreflexive, lemma_text_less_total,
    lemma_text_less_transitive, push_decimal, push_text, text_before, text_less, unescape,
    unescaped,
};
use vstd::prelude::*;

verus! {

/// One value of a record: a scalar, a list, a nested object or nothing.
#[derive(Debug, PartialEq)]
pub enum Value {
    /// A string, as the bytes it was received in.
    Bytes(Vec<u8>),
    /// A regular expression, as the text of its pattern. Its kind reads as a string's, but
    /// it is no string to the getter of strings.
    Regex(String),
    Integer(i64),
    /// A 64-bit float, held as its IEEE 754 bit pattern.
    Float(u64),
    Boolean(bool),
    /// A point in time, in microseconds since the Unix epoch.
    Timestamp(i64),
    /// Named values. A well-formed object holds them in the order of their names.
    Object(Vec<Field>),
    /// Values by place.
    Array(Vec<Value>),
    Null,
}

/// A named value of an object.
#[derive(Debug, PartialEq)]
pub struct Field {
    pub key: String,
    pub value: Value,
}

/// The mathematical value of a [`Value`].
pub enum ValueView {
    Bytes(Seq<u8>),
    Regex(Seq<char>),
    Integer(i64),
    Float(u64),
    Boolean(bool),
    Timestamp(i64),
    Object(Seq<FieldView>),
    Array(Seq<ValueView>),
    Null,
}

/// The mathematical value of a [`Field`].
pub struct FieldView {
    pub key: Seq<char>,
    pub value: ValueView,
}

/// The view of `v`, by recursion on its structure.
pub open spec fn value_view(v: Value) -> ValueView
    decreases v,
{
    match v {
        Value::Bytes(bytes) => ValueView::Bytes(bytes@),
        Value::Regex(pattern) => ValueView::Regex(pattern@),
        Value::Integer(i) => ValueView::Integer(i),
        Value::Float(bits) => ValueView::Float(bits),
        Value::Boolean(b) => ValueView::Boolean(b),
        Value::Timestamp(micros) => ValueView::Timestamp(micros),
        Value::Object(fields) => ValueView::Object(fields_view(fields@)),
        Value::Array(items) => ValueView::Array(items_view(items@)),
        Value::Null => ValueView::Null,
    }
}

/// The views of `items`, in order.
pub open spec fn items_view(items: Seq<Value>) -> Seq<ValueView>
    decreases items,
{
    if items.len() == 0 {
        Seq::empty()
    } else {
        items_view(items.drop_last()).push(value_view(items.last()))
    }
}

/// The views of `fields`, in order.
pub open spec fn fields_view(fields: Seq<Field>) -> Seq<FieldView>
    decreases fields,
{
    if fields.len() == 0 {
        Seq::empty()
    } else {
        fields_view(fields.drop_last()).push(
            FieldView { key: fields.last().key@, value: value_view(fields.last().value) },
        )
    }
}

impl View for Value {
    type V = ValueView;

    open spec fn view(&self) -> ValueView {
        value_view(*self)
    }
}

impl View for Field {
    type V = FieldView;

    open spec fn view(&self) -> FieldView {
        FieldView { key: self.key@, value: self.value@ }
    }
}

/// The view of a list of values is the list of their views.
pub proof fn lemma_items_view(items: Seq<Value>)
    ensures
        items_view(items).len() == items.len(),
        forall|i: int| 0 <= i < items.len() ==> (#[trigger] items_view(items)[i]) == items[i]@,
    decreases items.len(),
{
    if items.len() > 0 {
        lemma_items_view(items.drop_last());
        assert forall|i: int| 0 <= i < items.len() implies (#[trigger] items_view(items)[i])
            == items[i]@ by {
            if i < items.len() - 1 {
                assert(items.drop_last()[i] == items[i]);
            }
        }
    }
}

/// The view of a list of fields is the list of their views.
pub proof fn lemma_fields_view(fields: Seq<Field>)
    ensures
        fields_view(fields).len() == fields.len(),
        forall|i: int| 0 <= i < fields.len() ==> (#[trigger] fields_view(fields)[i]) == fields[i]@,
    decreases fields.len(),
{
    if fields.len() > 0 {
        lemma_fields_view(fields.drop_last());
        assert forall|i: int| 0 <= i < fields.len() implies (#[trigger] fields_view(fields)[i])
            == fields[i]@ by {
            if i < fields.len() - 1 {
                assert(fields.drop_last()[i] == fields[i]);
            }
        }
    }
}

/// One step of a path: into the field of an object, or to a place in a list.
#[derive(Debug, PartialEq)]
pub enum Segment {
    Field(String),
    /// A place counted from the front (0 is the first) or, if negative, from the back
    /// (-1 is the last).
    Index(isize),
}

/// The mathematical value of a [`Segment`].
pub enum SegmentView {
    Field(Seq<char>),
    Index(int),
}

impl View for Segment {
    type V = SegmentView;

    open spec fn view(&self) -> SegmentView {
        match self {
            Segment::Field(key) => SegmentView::Field(key@),
            Segment::Index(i) => SegmentView::Index(*i as int),
        }
    }
}

/// The views of `path`'s segments, in order.
pub open spec fn path_view(path: Seq<Segment>) -> Seq<SegmentView> {
    path.map_values(|s: Segment| s@)
}

/// The position of the first field named `key`, or the length of `fields` if there is none.
pub open spec fn field_position(fields: Seq<FieldView>, key: Seq<char>) -> int
    decreases fields.len(),
{
    if fields.len() == 0 {
        0
    } else if fields[0].key == key {
        0
    } else {
        1 + field_position(fields.drop_first(), key)
    }
}

/// The value of the first field named `key`.
pub open spec fn field_named(fields: Seq<FieldView>, key: Seq<char>) -> Option<ValueView> {
    let at = field_position(fields, key);
    if at < fields.len() {
        Some(fields[at].value)
    } else {
        None
    }
}

/// The value one step below `v`: the named field of an object, the indexed place of a list
/// (a negative index counts from the back), and nothing in every other case.
pub open spec fn child(v: ValueView, segment: SegmentView) -> Option<ValueView> {
    match (v, segment) {
        (ValueView::Object(fields), SegmentView::Field(key)) => field_named(fields, key),
        (ValueView::Array(items), SegmentView::Index(i)) => {
            if 0 <= i < items.len() {
                Some(items[i])
            } else if -items.len() <= i < 0 {
                Some(items[items.len() + i])
            } else {
                None
            }
        },
        _ => None,
    }
}

/// The value that `path` leads to from `v`, step by step; the empty path leads to `v`.
pub open spec fn descend(v: ValueView, path: Seq<SegmentView>) -> Option<ValueView>
    decreases path.len(),
{
    if path.len() == 0 {
        Some(v)
    } else {
        match child(v, path[0]) {
            Some(below) => descend(below, path.drop_first()),
            None => None,
        }
    }
}

/// The view of a borrowed value that may be missing.
pub open spec fn view_of(v: Option<&Value>) -> Option<ValueView> {
    match v {
        Some(v) => Some(v@),
        None => None,
    }
}

/// The position of a key is where its first field stands, behind every field of another
/// name.
pub proof fn lemma_field_position(fields: Seq<FieldView>, key: Seq<char>)
    ensures
        0 <= field_position(fields, key) <= fields.len(),
        field_position(fields, key) < fields.len() ==> fields[field_position(fields, key)].key
            == key,
        forall|i: int| 0 <= i < field_position(fields, key) ==> fields[i].key != key,
    decreases fields.len(),
{
    if fields.len() == 0 {
    } else if fields[0].key == key {
    } else {
        let rest = fields.drop_first();
        lemma_field_position(rest, key);
        assert forall|i: int| 0 <= i < field_position(fields, key) implies fields[i].key
            != key by {
            if i > 0 {
                assert(rest[i - 1].key != key);
            }
        }
    }
}

/// The first field of `fields` that is named `key`.
pub fn field_of<'a>(fields: &'a Vec<Field>, key: &str) -> (found: Option<&'a Value>)
    ensures
        view_of(found) == field_named(fields_view(fields@), key@),
{
    let wanted = key.to_owned();
    let mut i: usize = 0;
    proof {
        lemma_fields_view(fields@);
        lemma_field_position(fields_view(fields@), key@);
    }
    while i < fields.len()
        invariant
            i <= fields.len(),
            wanted@ == key@,
            fields_view(fields@).len() == fields.len(),
            forall|k: int|
                0 <= k < fields.len() ==> (#[trigger] fields_view(fields@)[k]) == fields@[k]@,
            forall|k: int| 0 <= k < i ==> fields@[k].key@ != key@,
            field_position(fields_view(fields@), key@) >= i,
            field_position(fields_view(fields@), key@) < fields.len() ==> fields_view(
                fields@,
            )[field_position(fields_view(fields@), key@)].key == key@,
            forall|k: int|
                0 <= k < field_position(fields_view(fields@), key@) ==> fields_view(
                    fields@,
                )[k].key != key@,
        decreases fields.len() - i,
    {
        if fields[i].key == wanted {
            assert(fields_view(fields@)[i as int].key == key@);
            return Some(&fields[i].value);
        }
        proof {
            let p = field_position(fields_view(fields@), key@);
            if p == i {
                assert(fields_view(fields@)[p].key == fields@[p]@.key);
            }
        }
        i += 1;
    }
    None
}

/// The value one step below `v`, as [`child`] defines it.
pub fn step<'a>(v: &'a Value, segment: &Segment) -> (below: Option<&'a Value>)
    ensures
        view_of(below) == child(v@, segment@),
{
    match v {
        Value::Object(fields) => match segment {
            Segment::Field(key) => field_of(fields, key.as_str()),
            Segment::Index(_) => None,
        },
        Value::Array(items) => match segment {
            Segment::Field(_) => None,
            Segment::Index(i) => {
                proof {
                    lemma_items_view(items@);
                }
                let i: isize = *i;
                if i >= 0 {
                    let at: usize = i as usize;
                    if at < items.len() {
                        Some(&items[at])
                    } else {
                        None
                    }
                } else {
                    let back: usize = (-(i + 1)) as usize;
                    if back < items.len() {
                        Some(&items[items.len() - 1 - back])
                    } else {
                        None
                    }
                }
            },
        },
        _ => None,
    }
}

/// The value that `path` leads to from `v`, as [`descend`] defines it.
pub fn walk<'a>(v: &'a Value, path: &Vec<Segment>) -> (found: Option<&'a Value>)
    ensures
        view_of(found) == descend(v@, path_view(path@)),
{
    let mut at: &Value = v;
    let mut i: usize = 0;
    assert(path_view(path@).skip(0) =~= path_view(path@));
    while i < path.len()
        invariant
            i <= path.len(),
            descend(v@, path_view(path@)) == descend(at@, path_view(path@).skip(i as int)),
        decreases path.len() - i,
    {
        let ghost rest = path_view(path@).skip(i as int);
        proof {
            assert(rest[0] == path@[i as int]@);
            assert(rest.drop_first() =~= path_view(path@).skip(i + 1));
        }
        match step(at, &path[i]) {
            Some(below) => {
                at = below;
            },
            None => {
                return None;
            },
        }
        i += 1;
    }
    Some(at)
}

/// Whether `c` is one of the ten decimal digits.
pub open spec fn is_digit(c: char) -> bool {
    '0' <= c <= '9'
}

/// How many digits stand in `key` from the place `from` on, without a gap.
pub open spec fn digit_run(key: Seq<char>, from: int) -> nat
    decreases key.len() - from,
{
    if 0 <= from < key.len() && is_digit(key[from]) {
        1 + digit_run(key, from + 1)
    } else {
        0
    }
}

/// How many zeros stand in `key` from the place `from` on, without a gap.
pub open spec fn zero_run(key: Seq<char>, from: int) -> nat
    decreases key.len() - from,
{
    if 0 <= from < key.len() && key[from] == '0' {
        1 + zero_run(key, from + 1)
    } else {
        0
    }
}

/// Where a reader of paths stands after some characters of a key: outside a quoted name,
/// inside one, or inside one and directly behind a backslash.
#[derive(Debug, Clone, Copy, PartialEq, Eq, Structural)]
pub enum Quoting {
    Outside,
    Inside,
    Escaped,
}

/// Where a reader stands that was at `before` and reads `c`: a quote opens and closes a
/// quoted name, and inside one a backslash takes the next character with it.
pub open spec fn quoting_after(before: Quoting, c: char) -> Quoting {
    match before {
        Quoting::Outside => if c == '"' {
            Quoting::Inside
        } else {
            Quoting::Outside
        },
        Quoting::Inside => if c == '"' {
            Quoting::Outside
        } else if c == '\\' {
            Quoting::Escaped
        } else {
            Quoting::Inside
        },
        Quoting::Escaped => Quoting::Inside,
    }
}

/// Where a reader of paths stands after the first `upto` characters of `key`.
pub open spec fn quoting(key: Seq<char>, upto: int) -> Quoting
    decreases upto,
{
    if upto <= 0 || upto > key.len() {
        Quoting::Outside
    } else {
        quoting_after(quoting(key, upto - 1), key[upto - 1])
    }
}

/// The place behind the `[` at `p` where the digits of an index begin: behind the sign, if
/// there is one.
pub open spec fn index_start(key: Seq<char>, p: int) -> int {
    if p + 1 < key.len() && key[p + 1] == '-' {
        p + 2
    } else {
        p + 1
    }
}

/// How many digits the index behind the `[` at `p` has, zeros at its front not counted.
pub open spec fn index_digits(key: Seq<char>, p: int) -> nat {
    let start = index_start(key, p);
    digit_run(key, start + zero_run(key, start))
}

/// No index that `key` spells has more than nine digits, zeros at its front not counted:
/// every index is below a thousand million and fits a machine integer. An index is what
/// stands behind a `[` outside quoted names.
pub open spec fn index_digits_bounded(key: Seq<char>) -> bool {
    forall|p: int|
        0 <= p < key.len() && key[p] == '[' && quoting(key, p) == Quoting::Outside
            ==> #[trigger] index_digits(key, p) <= 9
}

/// What `vrl::path::parse_value_path` makes of a key: the segments of the path that the
/// key spells, or `None` where it spells none.
pub uninterp spec fn parsed_path(key: Seq<char>) -> Option<Seq<SegmentView>>;

/// The views of a path that may be missing.
pub open spec fn path_view_of(path: Option<Vec<Segment>>) -> Option<Seq<SegmentView>> {
    match path {
        Some(p) => Some(path_view(p@)),
        None => None,
    }
}

/// `vrl::path::parse_value_path`: reads `key` as a path of field names and list indexes;
/// `None` stands for its error, which it gives for a key that spells no path. The parser
/// is a function of the key alone; its result is named [`parsed_path`]. It builds an index
/// digit by digit in a machine integer, so it is handed only keys whose indexes are below
/// a thousand million.
#[verifier::external_body]
fn parse_path(key: &str) -> (path: Option<Vec<Segment>>)
    requires
        index_digits_bounded(key@),
    ensures
        path_view_of(path) == parsed_path(key@),
{
    match vrl::path::parse_value_path(key) {
        Ok(path) => Some(
            path.segments.into_iter().map(
                |segment| match segment {
                    vrl::path::OwnedSegment::Field(name) => Segment::Field(name.into()),
                    vrl::path::OwnedSegment::Index(i) => Segment::Index(i),
                },
            ).collect(),
        ),
        Err(_) => None,
    }
}

/// Whether `c` is one of the ten decimal digits.
pub fn digit_at(chars: &Vec<char>, at: usize) -> (yes: bool)
    requires
        at < chars.len(),
    ensures
        yes == is_digit(chars@[at as int]),
{
    let c = chars[at];
    '0' <= c && c <= '9'
}

/// Counts the digits that stand in `chars` from `from` on without a gap, up to ten.
pub fn digits_from(chars: &Vec<char>, from: usize) -> (n: usize)
    ensures
        n <= 10,
        n < 10 ==> n == digit_run(chars@, from as int),
        n == 10 ==> digit_run(chars@, from as int) >= 10,
{
    let mut n: usize = 0;
    let mut at: usize = from;
    while n < 10 && at < chars.len() && digit_at(chars, at)
        invariant
            n <= 10,
            at == from + n,
            digit_run(chars@, from as int) == n + digit_run(chars@, at as int),
        decreases 10 - n,
    {
        n += 1;
        at += 1;
    }
    n
}

/// Counts the zeros that stand in `chars` from `from` on without a gap.
pub fn zeros_from(chars: &Vec<char>, from: usize) -> (n: usize)
    requires
        from <= chars.len(),
    ensures
        n == zero_run(chars@, from as int),
        from + n <= chars.len(),
{
    let mut at: usize = from;
    while at < chars.len() && chars[at] == '0'
        invariant
            from <= at <= chars.len(),
            zero_run(chars@, from as int) == (at - from) + zero_run(chars@, at as int),
        decreases chars.len() - at,
    {
        at += 1;
    }
    at - from
}

/// Where a reader that was at `before` stands after `c`.
pub fn next_quoting(before: Quoting, c: char) -> (after: Quoting)
    ensures
        after == quoting_after(before, c),
{
    match before {
        Quoting::Outside => if c == '"' {
            Quoting::Inside
        } else {
            Quoting::Outside
        },
        Quoting::Inside => if c == '"' {
            Quoting::Outside
        } else if c == '\\' {
            Quoting::Escaped
        } else {
            Quoting::Inside
        },
        Quoting::Escaped => Quoting::Inside,
    }
}

/// Whether every index that `key` spells is below a thousand million.
pub fn index_digits_fit(key: &str) -> (fit: bool)
    ensures
        fit == index_digits_bounded(key@),
{
    let chars = crate::text::chars_of(key);
    let mut state = Quoting::Outside;
    let mut p: usize = 0;
    while p < chars.len()
        invariant
            p <= chars.len(),
            chars@ == key@,
            state == quoting(key@, p as int),
            forall|q: int|
                0 <= q < p && key@[q] == '[' && quoting(key@, q) == Quoting::Outside
                    ==> #[trigger] index_digits(key@, q) <= 9,
        decreases chars.len() - p,
    {
        if chars[p] == '[' && state == Quoting::Outside {
            let mut start: usize = p + 1;
            if start < chars.len() && chars[start] == '-' {
                start += 1;
            }
            let zeros = zeros_from(&chars, start);
            if digits_from(&chars, start + zeros) > 9 {
                assert(index_digits(key@, p as int) > 9);
                return false;
            }
        }
        state = next_quoting(state, chars[p]);
        p += 1;
    }
    true
}

/// The value that `key` names in `root`, where `path` is what the path reader made of
/// `key`: the field of `root` that is literally named `key`, dots and all, if there is
/// one; else the value that `path` leads to.
pub open spec fn resolved(root: ValueView, key: Seq<char>, path: Option<Seq<SegmentView>>) -> Option<
    ValueView,
> {
    match child(root, SegmentView::Field(key)) {
        Some(v) => Some(v),
        None => match path {
            Some(p) => descend(root, p),
            None => None,
        },
    }
}

/// The path that is looked up for `key`: what the path reader makes of it. Only a key
/// that spells an index of a thousand million or more, which no list reaches, is not
/// handed to the reader and spells no path here.
pub open spec fn path_of(key: Seq<char>) -> Option<Seq<SegmentView>> {
    if index_digits_bounded(key) {
        parsed_path(key)
    } else {
        None
    }
}

/// The value that `key` names in `root`: by its literal name first, by its path second.
pub open spec fn resolve(root: ValueView, key: Seq<char>) -> Option<ValueView> {
    resolved(root, key, path_of(key))
}

/// The name of a value's kind.
pub open spec fn kind_of(v: ValueView) -> Seq<char> {
    match v {
        ValueView::Bytes(_) | ValueView::Regex(_) => "string"@,
        ValueView::Integer(_) => "integer"@,
        ValueView::Float(_) => "float"@,
        ValueView::Boolean(_) => "boolean"@,
        ValueView::Timestamp(_) => "timestamp"@,
        ValueView::Object(_) => "object"@,
        ValueView::Array(_) => "array"@,
        ValueView::Null => "null"@,
    }
}

/// The name of the kind of the value that `key` names, and the empty text if it names none.
pub open spec fn kind_at(root: ValueView, key: Seq<char>) -> Seq<char> {
    match resolve(root, key) {
        Some(v) => kind_of(v),
        None => ""@,
    }
}

/// The path that is looked up for `key`.
pub fn key_path(key: &str) -> (path: Option<Vec<Segment>>)
    ensures
        path_view_of(path) == path_of(key@),
{
    if index_digits_fit(key) {
        parse_path(key)
    } else {
        None
    }
}

/// The field of `root` that is literally named `key`, dots and all.
pub fn literal<'a>(root: &'a Value, key: &str) -> (found: Option<&'a Value>)
    ensures
        view_of(found) == child(root@, SegmentView::Field(key@)),
{
    match root {
        Value::Object(fields) => field_of(fields, key),
        _ => None,
    }
}

/// The value that `key` names in `root`, given the path that `key` was read as: the
/// literal name is tried first, the path second.
pub fn resolve_with<'a>(root: &'a Value, key: &str, path: &Option<Vec<Segment>>) -> (found: Option<
    &'a Value,
>)
    ensures
        view_of(found) == resolved(root@, key@, path_view_of(*path)),
{
    match literal(root, key) {
        Some(v) => Some(v),
        None => match path {
            Some(p) => walk(root, p),
            None => None,
        },
    }
}

/// The name of `v`'s kind.
pub fn kind_str(v: &Value) -> (kind: &'static str)
    ensures
        kind@ == kind_of(v@),
{
    match v {
        Value::Bytes(_) | Value::Regex(_) => "string",
        Value::Integer(_) => "integer",
        Value::Float(_) => "float",
        Value::Boolean(_) => "boolean",
        Value::Timestamp(_) => "timestamp",
        Value::Object(_) => "object",
        Value::Array(_) => "array",
        Value::Null => "null",
    }
}

/// `String::from_utf8`: the text that `bytes` encode. It is there exactly if the bytes are
/// valid UTF-8, and then holds the characters that they decode to.
#[verifier::external_body]
fn utf8_text(bytes: &Vec<u8>) -> (text: Option<String>)
    ensures
        text is Some <==> vstd::utf8::valid_utf8(bytes@),
        text matches Some(t) ==> t@ == vstd::utf8::decode_utf8(bytes@),
{
    String::from_utf8(bytes.clone()).ok()
}

/// One finished record of the pipeline, for reading.
#[derive(Debug, PartialEq)]
pub struct CxxLogEvent {
    pub log_event: Value,
}

impl View for CxxLogEvent {
    type V = ValueView;

    open spec fn view(&self) -> ValueView {
        self.log_event@
    }
}

impl CxxLogEvent {
    /// The value that `key` names: the field that is literally named `key`, dots and all,
    /// if the record has one; else the value that `key`, read as a path, leads to.
    pub fn get(&self, key: &str) -> (found: Option<&Value>)
        ensures
            view_of(found) == resolve(self@, key@),
    {
        match literal(&self.log_event, key) {
            Some(v) => Some(v),
            None => {
                let path = key_path(key);
                resolve_with(&self.log_event, key, &path)
            },
        }
    }

    /// The name of the kind of the value that `key` names; the empty text where `key`
    /// names nothing.
    pub fn get_value_type(&self, key: &str) -> (kind: &'static str)
        ensures
            kind@ == kind_at(self@, key@),
            resolve(self@, key@) is None ==> kind@ == ""@,
    {
        match self.get(key) {
            Some(v) => kind_str(v),
            None => "",
        }
    }

    /// Whether `key` names a string whose bytes are valid UTF-8: what
    /// [`CxxLogEvent::get_string`] asks for.
    pub open spec fn has_text(&self, key: Seq<char>) -> bool {
        resolve(self@, key) matches Some(ValueView::Bytes(bytes)) && vstd::utf8::valid_utf8(bytes)
    }

    /// The string that `key` names, if it names a string of valid UTF-8.
    pub fn try_get_string(&self, key: &str) -> (text: Option<String>)
        ensures
            text is Some <==> self.has_text(key@),
            text matches Some(t) ==> t@ == vstd::utf8::decode_utf8(
                resolve(self@, key@)->Some_0->Bytes_0,
            ),
    {
        match self.get(key) {
            Some(Value::Bytes(bytes)) => {
                if utf8_text(bytes).is_some() {
                    Some(self.get_string(key))
                } else {
                    None
                }
            },
            _ => None,
        }
    }

    /// The string that `key` names. `key` must name a string of valid UTF-8.
    pub fn get_string(&self, key: &str) -> (text: String)
        requires
            self.has_text(key@),
        ensures
            text@ == vstd::utf8::decode_utf8(resolve(self@, key@)->Some_0->Bytes_0),
    {
        match self.get(key) {
            Some(Value::Bytes(bytes)) => utf8_text(bytes).unwrap(),
            _ => String::new(),
        }
    }

    /// The integer that `key` names. `key` must name an integer.
    pub fn get_integer(&self, key: &str) -> (i: i64)
        requires
            resolve(self@, key@) matches Some(ValueView::Integer(_)),
        ensures
            resolve(self@, key@) == Some(ValueView::Integer(i)),
    {
        match self.get(key) {
            Some(Value::Integer(i)) => *i,
            _ => 0,
        }
    }

    /// The boolean that `key` names. `key` must name a boolean.
    pub fn get_boolean(&self, key: &str) -> (b: bool)
        requires
            resolve(self@, key@) matches Some(ValueView::Boolean(_)),
        ensures
            resolve(self@, key@) == Some(ValueView::Boolean(b)),
    {
        match self.get(key) {
            Some(Value::Boolean(b)) => *b,
            _ => false,
        }
    }

    /// The float that `key` names, as its IEEE 754 bit pattern. `key` must name a float.
    pub fn get_double(&self, key: &str) -> (bits: u64)
        requires
            resolve(self@, key@) matches Some(ValueView::Float(_)),
        ensures
            resolve(self@, key@) == Some(ValueView::Float(bits)),
    {
        match self.get(key) {
            Some(Value::Float(bits)) => *bits,
            _ => 0,
        }
    }

    /// The point in time that `key` names, in microseconds since the Unix epoch. `key` must
    /// name a timestamp.
    pub fn get_timestamp(&self, key: &str) -> (micros: i64)
        requires
            resolve(self@, key@) matches Some(ValueView::Timestamp(_)),
        ensures
            resolve(self@, key@) == Some(ValueView::Timestamp(micros)),
    {
        match self.get(key) {
            Some(Value::Timestamp(micros)) => *micros,
            _ => 0,
        }
    }

    /// The integer that `key` names, if it names one.
    pub fn try_get_integer(&self, key: &str) -> (i: Option<i64>)
        ensures
            match i {
                Some(i) => resolve(self@, key@) == Some(ValueView::Integer(i)),
                None => !(resolve(self@, key@) matches Some(ValueView::Integer(_))),
            },
    {
        match self.get(key) {
            Some(Value::Integer(_)) => Some(self.get_integer(key)),
            _ => None,
        }
    }

    /// The boolean that `key` names, if it names one.
    pub fn try_get_boolean(&self, key: &str) -> (b: Option<bool>)
        ensures
            match b {
                Some(b) => resolve(self@, key@) == Some(ValueView::Boolean(b)),
                None => !(resolve(self@, key@) matches Some(ValueView::Boolean(_))),
            },
    {
        match self.get(key) {
            Some(Value::Boolean(_)) => Some(self.get_boolean(key)),
            _ => None,
        }
    }

    /// The bit pattern of the float that `key` names, if it names one.
    pub fn try_get_double(&self, key: &str) -> (bits: Option<u64>)
        ensures
            match bits {
                Some(bits) => resolve(self@, key@) == Some(ValueView::Float(bits)),
                None => !(resolve(self@, key@) matches Some(ValueView::Float(_))),
            },
    {
        match self.get(key) {
            Some(Value::Float(_)) => Some(self.get_double(key)),
            _ => None,
        }
    }

    /// The point in time that `key` names, in microseconds, if it names one.
    pub fn try_get_timestamp(&self, key: &str) -> (micros: Option<i64>)
        ensures
            match micros {
                Some(micros) => resolve(self@, key@) == Some(ValueView::Timestamp(micros)),
                None => !(resolve(self@, key@) matches Some(ValueView::Timestamp(_))),
            },
    {
        match self.get(key) {
            Some(Value::Timestamp(_)) => Some(self.get_timestamp(key)),
            _ => None,
        }
    }

    /// The text of the value that `key` names, as `render` gives it. `key` must name a
    /// value.
    pub fn get_object_as_string<F: Fn(&Value) -> String>(&self, key: &str, render: F) -> (text:
        String)
        requires
            resolve(self@, key@) is Some,
            forall|v: &Value| call_requires(render, (v,)),
        ensures
            exists|v: Value|
                resolve(self@, key@) == Some(v@) && call_ensures(render, (&v,), text),
    {
        match self.get(key) {
            Some(v) => render(v),
            None => String::new(),
        }
    }

    /// The text of the value that `key` names, as `render` gives it; `None` where `key`
    /// names nothing.
    pub fn try_get_object_as_string<F: Fn(&Value) -> String>(&self, key: &str, render: F) -> (text:
        Option<String>)
        requires
            forall|v: &Value| call_requires(render, (v,)),
        ensures
            text is Some <==> resolve(self@, key@) is Some,
            text matches Some(t) ==> exists|v: Value|
                resolve(self@, key@) == Some(v@) && call_ensures(render, (&v,), t),
    {
        match self.get(key) {
            Some(_) => Some(self.get_object_as_string(key, render)),
            None => None,
        }
    }

    /// The text of the value that `key` names, as `render` gives it: the same as
    /// [`CxxLogEvent::get_object_as_string`], for a caller that means a list. `key` must
    /// name a value.
    pub fn get_array_as_string<F: Fn(&Value) -> String>(&self, key: &str, render: F) -> (text:
        String)
        requires
            resolve(self@, key@) is Some,
            forall|v: &Value| call_requires(render, (v,)),
        ensures
            exists|v: Value|
                resolve(self@, key@) == Some(v@) && call_ensures(render, (&v,), text),
    {
        self.get_object_as_string(key, render)
    }

    /// The texts of the items of the list that `key` names, each as `render` gives it, in
    /// order; no texts where `key` names no list.
    pub fn get_string_array<F: Fn(&Value) -> String>(&self, key: &str, render: F) -> (texts: Vec<
        String,
    >)
        requires
            forall|v: &Value| call_requires(render, (v,)),
        ensures
            resolve(self@, key@) matches Some(ValueView::Array(_)) ==> exists|items: Seq<Value>|
                {
                    &&& resolve(self@, key@) == Some(ValueView::Array(items_view(items)))
                    &&& texts.len() == items.len()
                    &&& forall|i: int|
                        0 <= i < items.len() ==> call_ensures(
                            render,
                            (&#[trigger] items[i],),
                            texts@[i],
                        )
                },
            !(resolve(self@, key@) matches Some(ValueView::Array(_))) ==> texts.len() == 0,
    {
        let mut texts: Vec<String> = Vec::new();
        match self.get_array(key) {
            Some(items) => {
                let mut i: usize = 0;
                while i < items.len()
                    invariant
                        i <= items.len(),
                        texts.len() == i,
                        forall|v: &Value| call_requires(render, (v,)),
                        forall|k: int|
                            0 <= k < i ==> call_ensures(
                                render,
                                (&#[trigger] items@[k],),
                                texts@[k],
                            ),
                    decreases items.len() - i,
                {
                    texts.push(render(&items[i]));
                    i += 1;
                }
                assert(resolve(self@, key@) == Some(ValueView::Array(items_view(items@))));
            },
            None => {},
        }
        texts
    }

    /// The items of the list that `key` names; `None` where `key` names no list.
    pub fn get_array(&self, key: &str) -> (items: Option<&Vec<Value>>)
        ensures
            match items {
                Some(list) => resolve(self@, key@) == Some(ValueView::Array(items_view(list@))),
                None => !(resolve(self@, key@) matches Some(ValueView::Array(_))),
            },
    {
        match self.get(key) {
            Some(Value::Array(list)) => Some(list),
            _ => None,
        }
    }
}

/// The path of the field `key` below the path `prefix` (`None`: at the top): the key with
/// its dots escaped, after the prefix and a dot.
pub open spec fn field_path(prefix: Option<Seq<char>>, key: Seq<char>) -> Seq<char> {
    match prefix {
        Some(p) => p + seq!['.'] + escaped(key),
        None => escaped(key),
    }
}

/// The path of the place `i` of the list at `prefix`: the prefix, then `i` in brackets.
pub open spec fn item_path(prefix: Seq<char>, i: nat) -> Seq<char> {
    prefix + seq!['['] + decimal(i) + seq![']']
}

/// The paths of the leaves of `v`, which itself has the path `path`, depth first. A scalar,
/// a null, an empty object and an empty list are leaves.
pub open spec fn leaf_paths(v: ValueView, path: Seq<char>) -> Seq<Seq<char>>
    decreases v,
{
    match v {
        ValueView::Object(fields) => if fields.len() > 0 {
            object_paths(fields, Some(path))
        } else {
            seq![path]
        },
        ValueView::Array(items) => if items.len() > 0 {
            array_paths(items, path)
        } else {
            seq![path]
        },
        _ => seq![path],
    }
}

/// The paths of the leaves below the fields of an object at `prefix`, field by field.
pub open spec fn object_paths(fields: Seq<FieldView>, prefix: Option<Seq<char>>) -> Seq<
    Seq<char>,
>
    decreases fields,
{
    if fields.len() == 0 {
        Seq::empty()
    } else {
        object_paths(fields.drop_last(), prefix) + leaf_paths(
            fields.last().value,
            field_path(prefix, fields.last().key),
        )
    }
}

/// The paths of the leaves below the items of a list at `prefix`, item by item.
pub open spec fn array_paths(items: Seq<ValueView>, prefix: Seq<char>) -> Seq<Seq<char>>
    decreases items,
{
    if items.len() == 0 {
        Seq::empty()
    } else {
        array_paths(items.drop_last(), prefix) + leaf_paths(
            items.last(),
            item_path(prefix, (items.len() - 1) as nat),
        )
    }
}

/// The view of a prefix that may be missing.
pub open spec fn prefix_view(prefix: Option<&String>) -> Option<Seq<char>> {
    match prefix {
        Some(p) => Some(p@),
        None => None,
    }
}

/// The path of the field `key` below `prefix`.
pub fn make_field_path(prefix: Option<&String>, key: &str) -> (path: String)
    ensures
        path@ == field_path(prefix_view(prefix), key@),
{
    let escaped_key = escape(key);
    match prefix {
        Some(p) => {
            let mut path = p.clone();
            path.push('.');
            push_text(&mut path, escaped_key.as_str());
            path
        },
        None => escaped_key,
    }
}

/// The path of the place `i` of the list at `prefix`.
pub fn make_item_path(prefix: &String, i: usize) -> (path: String)
    ensures
        path@ == item_path(prefix@, i as nat),
{
    let mut path = prefix.clone();
    path.push('[');
    push_decimal(&mut path, i);
    path.push(']');
    path
}

/// Appends to `out` the paths of the leaves of `v`, which itself has the path `path`.
pub fn collect_leaf_paths(v: &Value, path: String, out: &mut Vec<String>)
    ensures
        texts(final(out)@) == texts(old(out)@) + leaf_paths(v@, path@),
    decreases v,
{
    match v {
        Value::Object(fields) => {
            proof {
                lemma_fields_view(fields@);
            }
            if fields.len() > 0 {
                collect_object_paths(fields, Some(&path), out);
            } else {
                out.push(path);
                assert(texts(out@) =~= texts(old(out)@) + seq![path@]);
            }
        },
        Value::Array(items) => {
            proof {
                lemma_items_view(items@);
            }
            if items.len() > 0 {
                collect_array_paths(items, &path, out);
            } else {
                out.push(path);
                assert(texts(out@) =~= texts(old(out)@) + seq![path@]);
            }
        },
        _ => {
            out.push(path);
            assert(texts(out@) =~= texts(old(out)@) + seq![path@]);
        },
    }
}

/// Appends to `out` the paths of the leaves below `fields`, the fields of an object at
/// `prefix`.
pub fn collect_object_paths(fields: &Vec<Field>, prefix: Option<&String>, out: &mut Vec<String>)
    ensures
        texts(final(out)@) == texts(old(out)@) + object_paths(
            fields_view(fields@),
            prefix_view(prefix),
        ),
    decreases fields,
{
    let ghost all = fields_view(fields@);
    proof {
        lemma_fields_view(fields@);
    }
    let mut i: usize = 0;
    assert(texts(out@) + object_paths(all.take(0), prefix_view(prefix)) =~= texts(out@));
    while i < fields.len()
        invariant
            i <= fields.len(),
            all == fields_view(fields@),
            all.len() == fields.len(),
            forall|k: int| 0 <= k < fields.len() ==> (#[trigger] all[k]) == fields@[k]@,
            texts(out@) == texts(old(out)@) + object_paths(
                all.take(i as int),
                prefix_view(prefix),
            ),
        decreases fields.len() - i,
    {
        let ghost before = texts(out@);
        let field = &fields[i];
        let path = make_field_path(prefix, field.key.as_str());
        collect_leaf_paths(&field.value, path, out);
        proof {
            let next = all.take(i + 1);
            assert(next.drop_last() =~= all.take(i as int));
            assert(next.last() == all[i as int]);
            assert(texts(out@) =~= texts(old(out)@) + object_paths(next, prefix_view(prefix)));
        }
        i += 1;
    }
    assert(all.take(fields.len() as int) =~= all);
}

/// Appends to `out` the paths of the leaves below `items`, the items of a list at `prefix`.
pub fn collect_array_paths(items: &Vec<Value>, prefix: &String, out: &mut Vec<String>)
    ensures
        texts(final(out)@) == texts(old(out)@) + array_paths(items_view(items@), prefix@),
    decreases items,
{
    let ghost all = items_view(items@);
    proof {
        lemma_items_view(items@);
    }
    let mut i: usize = 0;
    assert(texts(out@) + array_paths(all.take(0), prefix@) =~= texts(out@));
    while i < items.len()
        invariant
            i <= items.len(),
            all == items_view(items@),
            all.len() == items.len(),
            forall|k: int| 0 <= k < items.len() ==> (#[trigger] all[k]) == items@[k]@,
            texts(out@) == texts(old(out)@) + array_paths(all.take(i as int), prefix@),
        decreases items.len() - i,
    {
        let path = make_item_path(prefix, i);
        collect_leaf_paths(&items[i], path, out);
        proof {
            let next = all.take(i + 1);
            assert(next.drop_last() =~= all.take(i as int));
            assert(next.last() == all[i as int]);
            assert(texts(out@) =~= texts(old(out)@) + array_paths(next, prefix@));
        }
        i += 1;
    }
    assert(all.take(items.len() as int) =~= all);
}

/// How many fields at the front of `fields` have a name that stands before `key`: the place
/// of `key` among fields that are in the order of their names.
pub open spec fn rank(fields: Seq<FieldView>, key: Seq<char>) -> int
    decreases fields.len(),
{
    if fields.len() == 0 {
        0
    } else if text_less(fields[0].key, key) {
        1 + rank(fields.drop_first(), key)
    } else {
        0
    }
}

/// `fields` with `field` in it, at the place of its name: instead of the field of that
/// name, or between the fields before and behind whose names its own stands.
pub open spec fn with_field(fields: Seq<FieldView>, field: FieldView) -> Seq<FieldView> {
    let at = rank(fields, field.key);
    if at < fields.len() && fields[at].key == field.key {
        fields.update(at, field)
    } else {
        fields.insert(at, field)
    }
}

/// The fields of the record that the first `pairs` pairs of `inputs` spell, each pair a
/// key and the text of its value, a later pair replacing an earlier one of the same key.
pub open spec fn fields_of_pairs(inputs: Seq<Seq<char>>, pairs: nat) -> Seq<FieldView>
    decreases pairs,
{
    if pairs == 0 {
        Seq::empty()
    } else {
        with_field(
            fields_of_pairs(inputs, (pairs - 1) as nat),
            FieldView {
                key: inputs[2 * pairs - 2],
                value: ValueView::Bytes(vstd::utf8::encode_utf8(inputs[2 * pairs - 1])),
            },
        )
    }
}

/// The escaped paths of all leaves of a record, depth first; none for a value that is no
/// object.
pub open spec fn record_paths(root: ValueView) -> Seq<Seq<char>> {
    match root {
        ValueView::Object(fields) => object_paths(fields, None),
        _ => Seq::empty(),
    }
}

/// The keys of the record's own fields, in order; none for a value that is no object.
pub open spec fn record_keys(root: ValueView) -> Seq<Seq<char>> {
    match root {
        ValueView::Object(fields) => fields.map_values(|f: FieldView| f.key),
        _ => Seq::empty(),
    }
}

/// Each text of `list`, unescaped.
pub open spec fn all_unescaped(list: Seq<Seq<char>>) -> Seq<Seq<char>> {
    list.map_values(|t: Seq<char>| unescaped(t))
}

/// A copy of `list` in which each text is unescaped.
pub fn unescape_all(list: &Vec<String>) -> (out: Vec<String>)
    ensures
        texts(out@) == all_unescaped(texts(list@)),
{
    let mut out: Vec<String> = Vec::new();
    let mut i: usize = 0;
    while i < list.len()
        invariant
            i <= list.len(),
            out.len() == i,
            forall|k: int| 0 <= k < i ==> (#[trigger] out@[k])@ == unescaped(list@[k]@),
        decreases list.len() - i,
    {
        out.push(unescape(list[i].as_str()));
        i += 1;
    }
    assert(texts(out@) =~= all_unescaped(texts(list@)));
    out
}

/// The fields stand in the order of their names; so no name occurs twice.
pub open spec fn sorted_keys(fields: Seq<FieldView>) -> bool {
    forall|i: int, j: int|
        0 <= i < j < fields.len() ==> text_less(
            (#[trigger] fields[i]).key,
            (#[trigger] fields[j]).key,
        )
}

/// A value is well formed if the fields of every object in it, at any depth, stand in the
/// order of their names: an object is a map from names to values, read in key order.
pub open spec fn well_formed(v: ValueView) -> bool
    decreases v,
{
    match v {
        ValueView::Object(fields) => sorted_keys(fields) && fields_well_formed(fields),
        ValueView::Array(items) => items_well_formed(items),
        _ => true,
    }
}

/// The value of every field is well formed.
pub open spec fn fields_well_formed(fields: Seq<FieldView>) -> bool
    decreases fields,
{
    if fields.len() == 0 {
        true
    } else {
        fields_well_formed(fields.drop_last()) && well_formed(fields.last().value)
    }
}

/// Every item is well formed.
pub open spec fn items_well_formed(items: Seq<ValueView>) -> bool
    decreases items,
{
    if items.len() == 0 {
        true
    } else {
        items_well_formed(items.drop_last()) && well_formed(items.last())
    }
}

/// The fields are well formed exactly if the value of each is.
pub proof fn lemma_fields_well_formed(fields: Seq<FieldView>)
    ensures
        fields_well_formed(fields) <==> forall|i: int|
            0 <= i < fields.len() ==> well_formed(#[trigger] fields[i].value),
    decreases fields.len(),
{
    if fields.len() > 0 {
        let front = fields.drop_last();
        lemma_fields_well_formed(front);
        if fields_well_formed(fields) {
            assert forall|i: int| 0 <= i < fields.len() implies well_formed(
                #[trigger] fields[i].value,
            ) by {
                if i < front.len() {
                    assert(front[i] == fields[i]);
                }
            }
        }
        if forall|i: int| 0 <= i < fields.len() ==> well_formed(#[trigger] fields[i].value) {
            assert forall|i: int| 0 <= i < front.len() implies well_formed(
                #[trigger] front[i].value,
            ) by {
                assert(front[i] == fields[i]);
            }
            assert(well_formed(fields[fields.len() - 1].value));
        }
    }
}

/// The items are well formed exactly if each is.
pub proof fn lemma_items_well_formed(items: Seq<ValueView>)
    ensures
        items_well_formed(items) <==> forall|i: int|
            0 <= i < items.len() ==> well_formed(#[trigger] items[i]),
    decreases items.len(),
{
    if items.len() > 0 {
        let front = items.drop_last();
        lemma_items_well_formed(front);
        if items_well_formed(items) {
            assert forall|i: int| 0 <= i < items.len() implies well_formed(
                #[trigger] items[i],
            ) by {
                if i < front.len() {
                    assert(front[i] == items[i]);
                }
            }
        }
        if forall|i: int| 0 <= i < items.len() ==> well_formed(#[trigger] items[i]) {
            assert forall|i: int| 0 <= i < front.len() implies well_formed(#[trigger] front[i]) by {
                assert(front[i] == items[i]);
            }
            assert(well_formed(items[items.len() - 1]));
        }
    }
}

/// The rank of a key lies within the list, behind every field whose name stands before
/// the key and at a field whose name does not.
pub proof fn lemma_rank(fields: Seq<FieldView>, key: Seq<char>)
    ensures
        0 <= rank(fields, key) <= fields.len(),
        forall|i: int| 0 <= i < rank(fields, key) ==> text_less((#[trigger] fields[i]).key, key),
        rank(fields, key) < fields.len() ==> !text_less(fields[rank(fields, key)].key, key),
    decreases fields.len(),
{
    if fields.len() > 0 && text_less(fields[0].key, key) {
        let rest = fields.drop_first();
        lemma_rank(rest, key);
        assert forall|i: int| 0 <= i < rank(fields, key) implies text_less(
            (#[trigger] fields[i]).key,
            key,
        ) by {
            if i > 0 {
                assert(rest[i - 1] == fields[i]);
            }
        }
        if rank(fields, key) < fields.len() {
            assert(rest[rank(rest, key)] == fields[rank(fields, key)]);
        }
    }
}

/// Fields in the order of their names have no name twice.
pub proof fn lemma_sorted_keys_are_unique(fields: Seq<FieldView>)
    requires
        sorted_keys(fields),
    ensures
        forall|i: int, j: int|
            0 <= i < fields.len() && 0 <= j < fields.len() && i != j ==> (#[trigger] fields[i]).key
                != (#[trigger] fields[j]).key,
{
    assert forall|i: int, j: int|
        0 <= i < fields.len() && 0 <= j < fields.len() && i != j implies (#[trigger] fields[i]).key
        != (#[trigger] fields[j]).key by {
        if i < j {
            assert(text_less(fields[i].key, fields[j].key));
            lemma_text_less_irreflexive(fields[i].key);
        } else {
            assert(text_less(fields[j].key, fields[i].key));
            lemma_text_less_irreflexive(fields[j].key);
        }
    }
}

/// Putting a well-formed field among well-formed fields that stand in the order of their
/// names leaves them well formed and in that order.
pub proof fn lemma_with_field(fields: Seq<FieldView>, field: FieldView)
    requires
        sorted_keys(fields),
        fields_well_formed(fields),
        well_formed(field.value),
    ensures
        sorted_keys(with_field(fields, field)),
        fields_well_formed(with_field(fields, field)),
{
    let after = with_field(fields, field);
    let at = rank(fields, field.key);
    lemma_rank(fields, field.key);
    lemma_fields_well_formed(fields);
    lemma_fields_well_formed(after);
    if at < fields.len() && fields[at].key == field.key {
        assert forall|i: int, j: int| 0 <= i < j < after.len() implies text_less(
            (#[trigger] after[i]).key,
            (#[trigger] after[j]).key,
        ) by {
            assert(text_less(fields[i].key, fields[j].key));
        }
        assert forall|i: int| 0 <= i < after.len() implies well_formed(
            #[trigger] after[i].value,
        ) by {
            if i != at {
                assert(well_formed(fields[i].value));
            }
        }
    } else {
        assert forall|j: int| at <= j < fields.len() implies text_less(
            field.key,
            (#[trigger] fields[j]).key,
        ) by {
            lemma_text_less_total(field.key, fields[at].key);
            if j > at {
                assert(text_less(fields[at].key, fields[j].key));
                lemma_text_less_transitive(field.key, fields[at].key, fields[j].key);
            }
        }
        assert forall|i: int, j: int| 0 <= i < j < after.len() implies text_less(
            (#[trigger] after[i]).key,
            (#[trigger] after[j]).key,
        ) by {
            if j < at {
                assert(text_less(fields[i].key, fields[j].key));
            } else if j == at {
                assert(text_less(fields[i].key, field.key));
            } else if i < at {
                assert(text_less(fields[i].key, fields[j - 1].key));
            } else if i == at {
                assert(text_less(field.key, fields[j - 1].key));
            } else {
                assert(text_less(fields[i - 1].key, fields[j - 1].key));
            }
        }
        assert forall|i: int| 0 <= i < after.len() implies well_formed(
            #[trigger] after[i].value,
        ) by {
            if i < at {
                assert(well_formed(fields[i].value));
            } else if i > at {
                assert(well_formed(fields[i - 1].value));
            }
        }
    }
}

/// A field that was put among fields in the order of their names is found under its name,
/// and every other name finds what it found before.
pub proof fn lemma_with_field_lookup(fields: Seq<FieldView>, field: FieldView, other: Seq<char>)
    requires
        sorted_keys(fields),
    ensures
        field_named(with_field(fields, field), field.key) == Some(field.value),
        other != field.key ==> field_named(with_field(fields, field), other) == field_named(
            fields,
            other,
        ),
{
    let after = with_field(fields, field);
    let at = rank(fields, field.key);
    lemma_rank(fields, field.key);
    lemma_sorted_keys_are_unique(fields);
    lemma_field_position(after, field.key);
    lemma_field_position(after, other);
    lemma_field_position(fields, other);
    let replaced = at < fields.len() && fields[at].key == field.key;
    assert(after[at].key == field.key);
    assert forall|i: int| 0 <= i < after.len() && i != at implies (#[trigger] after[i]).key
        != field.key by {
        if replaced {
            assert(after[i] == fields[i]);
            assert(fields[i].key != fields[at].key);
        } else if i < at {
            assert(after[i] == fields[i]);
            assert(text_less(fields[i].key, field.key));
            lemma_text_less_irreflexive(field.key);
        } else {
            assert(after[i] == fields[i - 1]);
            lemma_text_less_total(field.key, fields[at].key);
            if i - 1 > at {
                assert(text_less(fields[at].key, fields[i - 1].key));
                lemma_text_less_transitive(field.key, fields[at].key, fields[i - 1].key);
            }
            lemma_text_less_irreflexive(field.key);
        }
    }
    let p = field_position(after, field.key);
    if p != at {
        if p < at {
            assert(after[p].key != field.key);
        } else {
            assert(after[at].key == field.key);
        }
    }
    if other != field.key {
        let q = field_position(fields, other);
        let r = field_position(after, other);
        if q < fields.len() {
            let q_after = if replaced || q < at {
                q
            } else {
                q + 1
            };
            assert(after[q_after] == fields[q]);
            assert(after[q_after].key == other);
            if r != q_after {
                assert(r < q_after);
                let r_before = if replaced || r < at {
                    r
                } else {
                    r - 1
                };
                assert(r != at);
                assert(fields[r_before] == after[r]);
                assert(fields[r_before].key == fields[q].key);
            }
        } else {
            if r < after.len() {
                assert(r != at);
                let r_before = if replaced || r < at {
                    r
                } else {
                    r - 1
                };
                assert(fields[r_before] == after[r]);
                assert(fields[r_before].key == other);
            }
        }
    }
}

/// Whether the fields stand in the order of their names.
pub fn has_sorted_keys(fields: &Vec<Field>) -> (sorted: bool)
    ensures
        sorted == sorted_keys(fields_view(fields@)),
{
    let ghost all = fields_view(fields@);
    proof {
        lemma_fields_view(fields@);
    }
    let mut j: usize = 1;
    while j < fields.len()
        invariant
            1 <= j,
            all == fields_view(fields@),
            all.len() == fields.len(),
            forall|k: int| 0 <= k < fields.len() ==> (#[trigger] all[k]) == fields@[k]@,
            forall|a: int, b: int|
                0 <= a < b < j && b < all.len() ==> text_less(
                    (#[trigger] all[a]).key,
                    (#[trigger] all[b]).key,
                ),
        decreases fields.len() - j,
    {
        if !text_before(fields[j - 1].key.as_str(), fields[j].key.as_str()) {
            assert(!text_less(all[j - 1].key, all[j as int].key));
            return false;
        }
        assert forall|a: int, b: int| 0 <= a < b < j + 1 && b < all.len() implies text_less(
            (#[trigger] all[a]).key,
            (#[trigger] all[b]).key,
        ) by {
            if b == j && a < j - 1 {
                assert(text_less(all[a].key, all[j - 1].key));
                lemma_text_less_transitive(all[a].key, all[j - 1].key, all[j as int].key);
            }
        }
        j += 1;
    }
    true
}

/// Whether `v` is well formed.
pub fn is_well_formed(v: &Value) -> (yes: bool)
    ensures
        yes == well_formed(v@),
    decreases v,
{
    match v {
        Value::Object(fields) => has_sorted_keys(fields) && are_fields_well_formed(fields),
        Value::Array(items) => are_items_well_formed(items),
        _ => true,
    }
}

/// Whether the value of every field is well formed.
pub fn are_fields_well_formed(fields: &Vec<Field>) -> (yes: bool)
    ensures
        yes == fields_well_formed(fields_view(fields@)),
    decreases fields,
{
    let ghost all = fields_view(fields@);
    proof {
        lemma_fields_view(fields@);
        lemma_fields_well_formed(all);
    }
    let mut i: usize = 0;
    while i < fields.len()
        invariant
            i <= fields.len(),
            all == fields_view(fields@),
            all.len() == fields.len(),
            forall|k: int| 0 <= k < fields.len() ==> (#[trigger] all[k]) == fields@[k]@,
            forall|k: int| 0 <= k < i ==> well_formed(#[trigger] all[k].value),
            fields_well_formed(all) <==> forall|k: int|
                0 <= k < all.len() ==> well_formed(#[trigger] all[k].value),
        decreases fields.len() - i,
    {
        if !is_well_formed(&fields[i].value) {
            assert(!well_formed(all[i as int].value));
            return false;
        }
        i += 1;
    }
    true
}

/// Whether every item is well formed.
pub fn are_items_well_formed(items: &Vec<Value>) -> (yes: bool)
    ensures
        yes == items_well_formed(items_view(items@)),
    decreases items,
{
    let ghost all = items_view(items@);
    proof {
        lemma_items_view(items@);
        lemma_items_well_formed(all);
    }
    let mut i: usize = 0;
    while i < items.len()
        invariant
            i <= items.len(),
            all == items_view(items@),
            all.len() == items.len(),
            forall|k: int| 0 <= k < items.len() ==> (#[trigger] all[k]) == items@[k]@,
            forall|k: int| 0 <= k < i ==> well_formed(#[trigger] all[k]),
            items_well_formed(all) <==> forall|k: int|
                0 <= k < all.len() ==> well_formed(#[trigger] all[k]),
        decreases items.len() - i,
    {
        if !is_well_formed(&items[i]) {
            assert(!well_formed(all[i as int]));
            return false;
        }
        i += 1;
    }
    true
}

/// Puts `field` into `fields` at the place of its name: instead of the field of that name,
/// or between the fields before and behind whose names its own stands.
pub fn put_field(fields: &mut Vec<Field>, field: Field)
    ensures
        fields_view(final(fields)@) == with_field(fields_view(old(fields)@), field@),
{
    let ghost before = fields_view(fields@);
    proof {
        lemma_fields_view(fields@);
        assert(before.skip(0) =~= before);
    }
    let mut at: usize = 0;
    while at < fields.len() && text_before(fields[at].key.as_str(), field.key.as_str())
        invariant
            at <= fields.len(),
            fields@ == old(fields)@,
            before == fields_view(fields@),
            before.len() == fields.len(),
            forall|k: int| 0 <= k < fields.len() ==> (#[trigger] before[k]) == fields@[k]@,
            rank(before, field.key@) == at + rank(before.skip(at as int), field.key@),
        decreases fields.len() - at,
    {
        proof {
            assert(before.skip(at as int)[0] == before[at as int]);
            assert(before.skip(at as int).drop_first() =~= before.skip(at + 1));
        }
        at += 1;
    }
    proof {
        if at < fields.len() {
            assert(before.skip(at as int)[0] == before[at as int]);
        }
        assert(rank(before, field.key@) == at);
    }
    if at < fields.len() && fields[at].key == field.key {
        fields[at] = field;
        proof {
            lemma_fields_view(fields@);
            assert(fields_view(fields@) =~= before.update(at as int, field@));
        }
    } else {
        fields.insert(at, field);
        proof {
            lemma_fields_view(fields@);
            assert(fields_view(fields@) =~= before.insert(at as int, field@));
        }
    }
}

impl CxxLogEvent {
    /// A record is an object of named fields, and the fields of every object in it, the
    /// record itself or one below, stand in the order of their names.
    pub open spec fn wf(&self) -> bool {
        self@ is Object && well_formed(self@)
    }

    /// Whether the record is well formed.
    pub fn is_wf(&self) -> (yes: bool)
        ensures
            yes == self.wf(),
    {
        match &self.log_event {
            Value::Object(_) => is_well_formed(&self.log_event),
            _ => false,
        }
    }

    /// A record without fields.
    pub fn empty() -> (record: CxxLogEvent)
        ensures
            record.wf(),
            record@ == ValueView::Object(Seq::empty()),
    {
        CxxLogEvent { log_event: Value::Object(Vec::new()) }
    }

    /// Sets the field `key` of the record to `value`: in the place of the field of that
    /// name, or where the name stands in the order of the names.
    pub fn insert(&mut self, key: &str, value: Value)
        requires
            old(self).wf(),
            well_formed(value@),
        ensures
            final(self).wf(),
            final(self)@ == ValueView::Object(
                with_field(old(self)@->Object_0, FieldView { key: key@, value: value@ }),
            ),
    {
        proof {
            lemma_with_field(old(self)@->Object_0, FieldView { key: key@, value: value@ });
        }
        match &mut self.log_event {
            Value::Object(fields) => {
                put_field(fields, Field { key: key.to_owned(), value });
            },
            _ => {},
        }
    }

    /// The record that `inputs` spell, pair by pair: a key, then the text of its value. A
    /// key without a value at the end is passed over.
    pub fn new(inputs: &Vec<String>) -> (record: CxxLogEvent)
        ensures
            record.wf(),
            record@ == ValueView::Object(fields_of_pairs(texts(inputs@), (inputs.len() / 2) as nat)),
    {
        let mut record = CxxLogEvent::empty();
        let pairs = inputs.len() / 2;
        let mut n: usize = 0;
        while n < pairs
            invariant
                n <= pairs,
                pairs == inputs.len() / 2,
                record.wf(),
                record@ == ValueView::Object(fields_of_pairs(texts(inputs@), n as nat)),
            decreases pairs - n,
        {
            let key = &inputs[2 * n];
            let text = &inputs[2 * n + 1];
            record.insert(key.as_str(), Value::Bytes(text.as_str().as_bytes_vec()));
            n += 1;
        }
        record
    }

    /// The escaped path of every leaf of the record, depth first: a field below an object
    /// is `parent.child`, a place in a list `parent[index]`, and a dot inside a key has a
    /// backslash before it. The fields of an object come as the object holds them, which
    /// in a well-formed record is the order of their names.
    pub fn paths(&self) -> (paths: Vec<String>)
        ensures
            texts(paths@) == record_paths(self@),
    {
        let mut out: Vec<String> = Vec::new();
        assert(texts(out@) =~= Seq::empty());
        match &self.log_event {
            Value::Object(fields) => {
                collect_object_paths(fields, None, &mut out);
                assert(texts(out@) =~= record_paths(self@));
            },
            _ => {},
        }
        out
    }

    /// The path of every leaf of the record, depth first, unescaped: each backslash that
    /// stands before a dot is left out.
    pub fn fields(&self) -> (fields: Vec<String>)
        ensures
            texts(fields@) == all_unescaped(record_paths(self@)),
    {
        let paths = self.paths();
        unescape_all(&paths)
    }

    /// The keys of the record's own fields, unescaped like the paths of
    /// [`CxxLogEvent::fields`]; nothing below the first level is listed.
    pub fn top_level_fields(&self) -> (keys: Vec<String>)
        ensures
            texts(keys@) == all_unescaped(record_keys(self@)),
    {
        let mut keys: Vec<String> = Vec::new();
        match &self.log_event {
            Value::Object(fields) => {
                proof {
                    lemma_fields_view(fields@);
                }
                let mut i: usize = 0;
                while i < fields.len()
                    invariant
                        i <= fields.len(),
                        keys.len() == i,
                        forall|k: int|
                            0 <= k < i ==> (#[trigger] keys@[k])@ == unescaped(fields@[k].key@),
                    decreases fields.len() - i,
                {
                    keys.push(unescape(fields[i].key.as_str()));
                    i += 1;
                }
                assert(texts(keys@) =~= all_unescaped(record_keys(self@)));
            },
            _ => {
                assert(texts(keys@) =~= all_unescaped(record_keys(self@)));
            },
        }
        keys
    }
}

/// The bytes of `Hello`, a space, a four-byte sequence cut off after its third byte, and
/// `World`: no valid UTF-8.
pub open spec fn broken_text() -> Seq<u8> {
    seq![72u8, 101, 108, 108, 111, 32, 240, 144, 128, 87, 111, 114, 108, 100]
}

/// The key of the field in which the two last records of [`new_cxx_log_events`] hold their
/// text.
pub open spec fn probe_key() -> Seq<char> {
    "invalid_key"@
}

/// The text of the last record but one of [`new_cxx_log_events`]: valid UTF-8 with three
/// characters beyond ASCII in it.
pub open spec fn replaced_text() -> Seq<char> {
    "Hello \u{ef}\u{bf}\u{bd}World"@
}

/// Records for measurements: `count` records that `inputs` spell pair by pair (none if
/// `count` is negative), then one record whose only field holds [`replaced_text`], then
/// one whose only field holds [`broken_text`].
pub fn new_cxx_log_events(inputs: Vec<String>, count: i32) -> (events: Vec<CxxLogEvent>)
    ensures
        events.len() == (if count > 0 {
            count as int
        } else {
            0
        }) + 2,
        forall|i: int| 0 <= i < events.len() ==> (#[trigger] events@[i]).wf(),
        forall|i: int|
            0 <= i < count ==> (#[trigger] events@[i])@ == ValueView::Object(
                fields_of_pairs(texts(inputs@), (inputs.len() / 2) as nat),
            ),
        events@[events.len() - 2]@ == ValueView::Object(
            seq![
                FieldView {
                    key: probe_key(),
                    value: ValueView::Bytes(vstd::utf8::encode_utf8(replaced_text())),
                },
            ],
        ),
        events@[events.len() - 1]@ == ValueView::Object(
            seq![FieldView { key: probe_key(), value: ValueView::Bytes(broken_text()) }],
        ),
{
    let mut events: Vec<CxxLogEvent> = Vec::new();
    let mut i: i32 = 0;
    while i < count
        invariant
            0 <= i,
            count >= 0 ==> i <= count,
            count < 0 ==> i == 0,
            events.len() == i,
            forall|k: int| 0 <= k < i ==> (#[trigger] events@[k]).wf(),
            forall|k: int|
                0 <= k < i ==> (#[trigger] events@[k])@ == ValueView::Object(
                    fields_of_pairs(texts(inputs@), (inputs.len() / 2) as nat),
                ),
        decreases count - i,
    {
        events.push(CxxLogEvent::new(&inputs));
        i += 1;
    }
    let mut replaced = CxxLogEvent::empty();
    replaced.insert("invalid_key", Value::Bytes("Hello \u{ef}\u{bf}\u{bd}World".as_bytes_vec()));
    assert(replaced@->Object_0 =~= seq![
        FieldView {
            key: probe_key(),
            value: ValueView::Bytes(vstd::utf8::encode_utf8(replaced_text())),
        },
    ]);
    events.push(replaced);
    let bytes: Vec<u8> = vec![72u8, 101, 108, 108, 111, 32, 240, 144, 128, 87, 111, 114, 108, 100];
    assert(bytes@ =~= broken_text());
    let mut broken = CxxLogEvent::empty();
    broken.insert("invalid_key", Value::Bytes(bytes));
    assert(broken@->Object_0 =~= seq![
        FieldView { key: probe_key(), value: ValueView::Bytes(broken_text()) },
    ]);
    events.push(broken);
    events
}

/// A key names a value by its literal name first and by its path second: where the record
/// has a field that is literally named `key`, that field is what `key` names, whatever the
/// key would lead to as a path; only where it has none does the path count.
pub proof fn literal_key_wins(root: ValueView, key: Seq<char>)
    ensures
        child(root, SegmentView::Field(key)) is Some ==> resolve(root, key) == child(
            root,
            SegmentView::Field(key),
        ),
        child(root, SegmentView::Field(key)) is None ==> resolve(root, key) == match path_of(key) {
            Some(path) => descend(root, path),
            None => None,
        },
{
}

/// The kind of a key is the empty text exactly where the key names nothing.
pub proof fn kind_is_empty_for_absent_keys_only(root: ValueView, key: Seq<char>)
    ensures
        kind_at(root, key) == ""@ <==> resolve(root, key) is None,
{
    reveal_strlit("");
    reveal_strlit("string");
    reveal_strlit("integer");
    reveal_strlit("float");
    reveal_strlit("boolean");
    reveal_strlit("timestamp");
    reveal_strlit("object");
    reveal_strlit("array");
    reveal_strlit("null");
    if resolve(root, key) is Some {
        assert(kind_at(root, key).len() > 0);
    }
}

/// In the escaped path of a key every dot has a backslash before it: a path with a bare
/// dot spells nesting, never a flat key.
pub proof fn escaped_key_has_no_bare_dot(key: Seq<char>, i: int)
    requires
        0 <= i < escaped(key).len(),
        escaped(key)[i] == '.',
    ensures
        i > 0,
        escaped(key)[i - 1] == '\\',
    decreases key.len(),
{
    if key.len() > 0 {
        let rest = key.skip(1);
        if key[0] == '.' {
            assert(escaped(key) =~= seq!['\\', '.'] + escaped(rest));
            if i >= 2 {
                crate::text::lemma_escaped_head(rest);
                assert(escaped(key)[i] == escaped(rest)[i - 2]);
                escaped_key_has_no_bare_dot(rest, i - 2);
                assert(escaped(key)[i - 1] == escaped(rest)[i - 3]);
            }
        } else {
            assert(escaped(key) =~= seq![key[0]] + escaped(rest));
            crate::text::lemma_escaped_head(rest);
            assert(escaped(key)[i] == escaped(rest)[i - 1]);
            escaped_key_has_no_bare_dot(rest, i - 1);
            assert(escaped(key)[i - 1] == escaped(rest)[i - 2]);
        }
    }
}

} // verus!
