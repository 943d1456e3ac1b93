//! The attribute store: a recursive, typed key-value tree that holds player
//! data, entity data, item definitions and the world's catalogs.

use crate::error::Error;
use crate::text::{push_signed, push_str, signed_decimal, str_eq, utf8};
use vstd::prelude::*;

verus! {

/// One value of the attribute store.
pub enum Value {
    /// A whole number.
    Int(i64),
    /// A fraction, held in millionths: `Float(500_000)` is one half.
    Float(i64),
    /// A short string.
    String(String),
    /// A long string, such as a piece of ASCII art.
    LongString(String),
    /// A list of values.
    List(Vec<Value>),
    /// A nested store.
    Box(Stats),
}

/// One named value of a store.
struct Entry {
    name: String,
    value: Value,
}

/// An attribute store: names in the order in which they were first set, each
/// with one value.
pub struct Stats {
    entries: Vec<Entry>,
}

/// What a store stands for: its names and values, in order.
pub type StatsModel = Seq<(Seq<char>, ValueModel)>;

/// What a [`Value`] stands for.
pub enum ValueModel {
    Int(i64),
    Float(i64),
    String(Seq<char>),
    LongString(Seq<char>),
    List(Seq<ValueModel>),
    Box(StatsModel),
}

/// The model of a value.
pub open spec fn value_model(v: Value) -> ValueModel
    decreases v,
{
    match v {
        Value::Int(i) => ValueModel::Int(i),
        Value::Float(f) => ValueModel::Float(f),
        Value::String(s) => ValueModel::String(s@),
        Value::LongString(s) => ValueModel::LongString(s@),
        Value::List(l) => ValueModel::List(
            Seq::new(
                l@.len(),
                |i: int|
                    if 0 <= i < l@.len() {
                        value_model(l[i])
                    } else {
                        ValueModel::Int(0)
                    },
            ),
        ),
        Value::Box(s) => ValueModel::Box(stats_model(s)),
    }
}

/// The model of a store.
pub closed spec fn stats_model(s: Stats) -> StatsModel
    decreases s,
{
    Seq::new(
        s.entries@.len(),
        |i: int|
            if 0 <= i < s.entries@.len() {
                (s.entries[i].name@, value_model(s.entries[i].value))
            } else {
                (Seq::empty(), ValueModel::Int(0))
            },
    )
}

impl View for Value {
    type V = ValueModel;

    open spec fn view(&self) -> ValueModel {
        value_model(*self)
    }
}

impl View for Stats {
    type V = StatsModel;

    open spec fn view(&self) -> StatsModel {
        stats_model(*self)
    }
}

/// The index of the first entry called `name`, or the length of `m` where
/// no entry has that name.
pub open spec fn first_index(m: StatsModel, name: Seq<char>) -> int
    decreases m.len(),
{
    if m.len() == 0 {
        0
    } else if m[0].0 == name {
        0
    } else {
        1 + first_index(m.drop_first(), name)
    }
}

/// Whether the store holds `name`.
pub open spec fn model_has(m: StatsModel, name: Seq<char>) -> bool {
    first_index(m, name) < m.len()
}

/// The value under `name`, if the store holds it.
pub open spec fn model_get(m: StatsModel, name: Seq<char>) -> Option<ValueModel> {
    if model_has(m, name) {
        Some(m[first_index(m, name)].1)
    } else {
        None
    }
}

/// The value under `name`, or `default` where the store does not hold it.
pub open spec fn model_get_or(m: StatsModel, name: Seq<char>, default: ValueModel) -> ValueModel {
    match model_get(m, name) {
        Some(v) => v,
        None => default,
    }
}

/// The store after `name` is set to `v`: an entry of that name keeps its
/// place, a new name goes to the end.
pub open spec fn model_set(m: StatsModel, name: Seq<char>, v: ValueModel) -> StatsModel {
    if model_has(m, name) {
        m.update(first_index(m, name), (name, v))
    } else {
        m.push((name, v))
    }
}

/// The store without any entry called `name`; the other entries keep
/// their order.
pub open spec fn model_remove(m: StatsModel, name: Seq<char>) -> StatsModel
    decreases m.len(),
{
    if m.len() == 0 {
        m
    } else if m.last().0 == name {
        model_remove(m.drop_last(), name)
    } else {
        model_remove(m.drop_last(), name).push(m.last())
    }
}

/// The names of a store, in order.
pub open spec fn model_names(m: StatsModel) -> Seq<Seq<char>> {
    Seq::new(m.len(), |i: int| m[i].0)
}

/// The number in a value.
pub open spec fn value_int(v: ValueModel) -> Result<i64, Error> {
    match v {
        ValueModel::Int(i) => Ok(i),
        _ => Err(Error::TypeMismatch),
    }
}

/// The millionths in a value.
pub open spec fn value_flt(v: ValueModel) -> Result<i64, Error> {
    match v {
        ValueModel::Float(f) => Ok(f),
        _ => Err(Error::TypeMismatch),
    }
}

/// The text in a value that is a short string.
pub open spec fn value_string(v: ValueModel) -> Result<Seq<char>, Error> {
    match v {
        ValueModel::String(s) => Ok(s),
        _ => Err(Error::TypeMismatch),
    }
}

/// The text in a value that is a long string.
pub open spec fn value_longstring(v: ValueModel) -> Result<Seq<char>, Error> {
    match v {
        ValueModel::LongString(s) => Ok(s),
        _ => Err(Error::TypeMismatch),
    }
}

/// The items in a value.
pub open spec fn value_list(v: ValueModel) -> Result<Seq<ValueModel>, Error> {
    match v {
        ValueModel::List(l) => Ok(l),
        _ => Err(Error::TypeMismatch),
    }
}

/// The nested store in a value.
pub open spec fn value_box(v: ValueModel) -> Result<StatsModel, Error> {
    match v {
        ValueModel::Box(s) => Ok(s),
        _ => Err(Error::TypeMismatch),
    }
}

/// The value under `name`, which must be there.
pub open spec fn model_need(m: StatsModel, name: Seq<char>) -> Result<ValueModel, Error> {
    match model_get(m, name) {
        Some(v) => Ok(v),
        None => Err(Error::MissingKey),
    }
}

/// The number under `name`, which must be there.
pub open spec fn model_int(m: StatsModel, name: Seq<char>) -> Result<i64, Error> {
    match model_get(m, name) {
        Some(v) => value_int(v),
        None => Err(Error::MissingKey),
    }
}

/// The number under `name`, or `default` where the store does not hold the name.
pub open spec fn model_int_or(m: StatsModel, name: Seq<char>, default: i64) -> Result<
    i64,
    Error,
> {
    match model_get(m, name) {
        Some(v) => value_int(v),
        None => Ok(default),
    }
}

/// The millionths under `name`, or `default` where the store does not hold the name.
pub open spec fn model_flt_or(m: StatsModel, name: Seq<char>, default: i64) -> Result<
    i64,
    Error,
> {
    match model_get(m, name) {
        Some(v) => value_flt(v),
        None => Ok(default),
    }
}

/// The short string under `name`, which must be there.
pub open spec fn model_string(m: StatsModel, name: Seq<char>) -> Result<Seq<char>, Error> {
    match model_get(m, name) {
        Some(v) => value_string(v),
        None => Err(Error::MissingKey),
    }
}

/// The list under `name`, which must be there.
pub open spec fn model_list(m: StatsModel, name: Seq<char>) -> Result<Seq<ValueModel>, Error> {
    match model_get(m, name) {
        Some(v) => value_list(v),
        None => Err(Error::MissingKey),
    }
}

/// The nested store under `name`, which must be there.
pub open spec fn model_box(m: StatsModel, name: Seq<char>) -> Result<StatsModel, Error> {
    match model_get(m, name) {
        Some(v) => value_box(v),
        None => Err(Error::MissingKey),
    }
}

/// The nested store under `name`, or an empty one where the store does not
/// hold the name.
pub open spec fn model_box_or_empty(m: StatsModel, name: Seq<char>) -> Result<StatsModel, Error> {
    match model_get(m, name) {
        Some(v) => value_box(v),
        None => Ok(Seq::empty()),
    }
}

/// `first_index` is in range, names the searched entry, and no earlier entry
/// has that name.
pub proof fn lemma_first_index(m: StatsModel, name: Seq<char>)
    ensures
        0 <= first_index(m, name) <= m.len(),
        forall|j: int| 0 <= j < first_index(m, name) ==> (#[trigger] m[j]).0 != name,
        first_index(m, name) < m.len() ==> m[first_index(m, name)].0 == name,
    decreases m.len(),
{
    if m.len() != 0 && m[0].0 != name {
        let rest = m.drop_first();
        lemma_first_index(rest, name);
        assert forall|j: int| 0 <= j < first_index(m, name) implies (#[trigger] m[j]).0
            != name by {
            if j > 0 {
                assert(m[j] == rest[j - 1]);
            }
        }
    }
}

/// The first index at which `name` stands is `first_index`.
pub proof fn lemma_first_index_is(m: StatsModel, name: Seq<char>, i: int)
    requires
        0 <= i <= m.len(),
        forall|j: int| 0 <= j < i ==> (#[trigger] m[j]).0 != name,
        i < m.len() ==> m[i].0 == name,
    ensures
        first_index(m, name) == i,
{
    lemma_first_index(m, name);
    let f = first_index(m, name);
    if f < i {
        assert(m[f].0 != name);
    }
    if i < f {
        assert(m[i].0 != name);
    }
}

/// The value under a name in a store with one more entry at its end: what
/// the store held under the name, and the new entry only where it held
/// nothing.
pub proof fn lemma_get_after_push(
    m: StatsModel,
    entry: (Seq<char>, ValueModel),
    name: Seq<char>,
)
    ensures
        model_get(m.push(entry), name) == (match model_get(m, name) {
            Some(v) => Some(v),
            None => if entry.0 == name {
                Some(entry.1)
            } else {
                None
            },
        }),
{
    lemma_first_index(m, name);
    let longer = m.push(entry);
    let i = first_index(m, name);
    if i < m.len() {
        lemma_first_index_is(longer, name, i);
    } else if entry.0 == name {
        lemma_first_index_is(longer, name, m.len() as int);
    } else {
        lemma_first_index_is(longer, name, longer.len() as int);
    }
}

/// What was removed is no longer found, and every other name keeps what
/// it had.
pub proof fn lemma_get_after_remove(m: StatsModel, name: Seq<char>, other: Seq<char>)
    ensures
        model_get(model_remove(m, name), name) is None,
        other != name ==> model_get(model_remove(m, name), other) == model_get(m, other),
    decreases m.len(),
{
    if m.len() > 0 {
        let front = m.drop_last();
        lemma_get_after_remove(front, name, other);
        assert(m =~= front.push(m.last()));
        lemma_get_after_push(front, m.last(), name);
        lemma_get_after_push(front, m.last(), other);
        if m.last().0 != name {
            lemma_get_after_push(model_remove(front, name), m.last(), name);
            lemma_get_after_push(model_remove(front, name), m.last(), other);
        }
    }
}

/// What was set under a name is found under it, and every other name
/// keeps what it had.
pub proof fn lemma_get_after_set(m: StatsModel, name: Seq<char>, v: ValueModel, other: Seq<char>)
    ensures
        model_get(model_set(m, name, v), name) == Some(v),
        other != name ==> model_get(model_set(m, name, v), other) == model_get(m, other),
{
    lemma_first_index(m, name);
    lemma_first_index(m, other);
    let after = model_set(m, name, v);
    let i = first_index(m, name);
    lemma_first_index_is(after, name, i);
    if other != name {
        let k = first_index(m, other);
        if k < m.len() {
            lemma_first_index_is(after, other, k);
        } else {
            lemma_first_index_is(after, other, after.len() as int);
        }
    }
}

/// The text of a value: a number as a decimal numeral, a fraction as its
/// millionths followed by `e-6`, a string as it stands, a list in square
/// brackets with a comma after each item, a nested store in braces.
pub open spec fn render_value(v: ValueModel) -> Seq<u8>
    decreases v, 0nat,
{
    match v {
        ValueModel::Int(i) => signed_decimal(i as int),
        ValueModel::Float(f) => signed_decimal(f as int) + utf8("e-6"@),
        ValueModel::String(s) => utf8(s),
        ValueModel::LongString(s) => utf8(s),
        ValueModel::List(l) => utf8("["@) + render_items(l, l.len()) + utf8("]"@),
        ValueModel::Box(m) => utf8("{"@) + render_entries(m, m.len()) + utf8("}"@),
    }
}

/// The text of the first `n` items of a list.
pub open spec fn render_items(l: Seq<ValueModel>, n: nat) -> Seq<u8>
    decreases l, n,
{
    if n == 0 || n > l.len() {
        Seq::empty()
    } else {
        render_items(l, (n - 1) as nat) + render_value(l[n - 1]) + utf8(","@)
    }
}

/// The text of the first `n` entries of a store: for each its name, a colon
/// and a blank, its value and a line feed.
pub open spec fn render_entries(m: StatsModel, n: nat) -> Seq<u8>
    decreases m, n,
{
    if n == 0 || n > m.len() {
        Seq::empty()
    } else {
        render_entries(m, (n - 1) as nat) + utf8(m[n - 1].0) + utf8(": "@) + render_value(
            m[n - 1].1,
        ) + utf8("\n"@)
    }
}

/// The text of a whole store.
pub open spec fn render_stats(m: StatsModel) -> Seq<u8> {
    render_entries(m, m.len())
}

impl Value {
    /// The number in an `Int`.
    pub fn as_int(&self) -> (r: Result<i64, Error>)
        ensures
            match r {
                Ok(i) => self@ == ValueModel::Int(i),
                Err(e) => e == Error::TypeMismatch && !(self@ is Int),
            },
    {
        match self {
            Value::Int(i) => Ok(*i),
            _ => Err(Error::TypeMismatch),
        }
    }

    /// The millionths in a `Float`.
    pub fn as_flt(&self) -> (r: Result<i64, Error>)
        ensures
            match r {
                Ok(f) => self@ == ValueModel::Float(f),
                Err(e) => e == Error::TypeMismatch && !(self@ is Float),
            },
    {
        match self {
            Value::Float(f) => Ok(*f),
            _ => Err(Error::TypeMismatch),
        }
    }

    /// The text in a `String`.
    pub fn as_string(&self) -> (r: Result<&String, Error>)
        ensures
            match r {
                Ok(s) => self@ == ValueModel::String(s@),
                Err(e) => e == Error::TypeMismatch && !(self@ is String),
            },
    {
        match self {
            Value::String(s) => Ok(s),
            _ => Err(Error::TypeMismatch),
        }
    }

    /// The text in a `LongString`.
    pub fn as_longstring(&self) -> (r: Result<&String, Error>)
        ensures
            match r {
                Ok(s) => self@ == ValueModel::LongString(s@),
                Err(e) => e == Error::TypeMismatch && !(self@ is LongString),
            },
    {
        match self {
            Value::LongString(s) => Ok(s),
            _ => Err(Error::TypeMismatch),
        }
    }

    /// The items of a `List`.
    pub fn as_vec(&self) -> (r: Result<&Vec<Value>, Error>)
        ensures
            match r {
                Ok(l) => self@ == ValueModel::List(list_model(l@)),
                Err(e) => e == Error::TypeMismatch && !(self@ is List),
            },
    {
        match self {
            Value::List(l) => {
                assert(value_model(*self)->List_0 =~= list_model(l@));
                Ok(l)
            },
            _ => Err(Error::TypeMismatch),
        }
    }

    /// The store in a `Box`.
    pub fn as_box(&self) -> (r: Result<&Stats, Error>)
        ensures
            match r {
                Ok(s) => self@ == ValueModel::Box(s@),
                Err(e) => e == Error::TypeMismatch && !(self@ is Box),
            },
    {
        match self {
            Value::Box(s) => Ok(s),
            _ => Err(Error::TypeMismatch),
        }
    }
}

impl Stats {
    /// An empty store.
    pub fn new() -> (s: Stats)
        ensures
            s@ == Seq::<(Seq<char>, ValueModel)>::empty(),
    {
        let s = Stats { entries: Vec::new() };
        assert(s@ =~= Seq::<(Seq<char>, ValueModel)>::empty());
        s
    }

    /// The number of entries.
    pub fn len(&self) -> (n: usize)
        ensures
            n == self@.len(),
    {
        self.entries.len()
    }

    /// The index of the entry called `name`, or the number of entries where
    /// there is none.
    fn find(&self, name: &str) -> (i: usize)
        ensures
            i == first_index(self@, name@),
            i <= self.entries@.len(),
    {
        let mut i: usize = 0;
        while i < self.entries.len()
            invariant
                i <= self.entries@.len(),
                forall|j: int| 0 <= j < i ==> (#[trigger] self@[j]).0 != name@,
            decreases self.entries@.len() - i,
        {
            if str_eq(self.entries[i].name.as_str(), name) {
                proof {
                    lemma_first_index_is(self@, name@, i as int);
                }
                return i;
            }
            i = i + 1;
        }
        proof {
            lemma_first_index_is(self@, name@, i as int);
        }
        i
    }

    /// Whether the store holds `name`.
    pub fn has_var(&self, name: &str) -> (b: bool)
        ensures
            b == model_has(self@, name@),
    {
        self.find(name) < self.entries.len()
    }

    /// The value under `name`; a name that the store does not hold is an
    /// error, never a default.
    pub fn get(&self, name: &str) -> (r: Result<&Value, Error>)
        ensures
            match r {
                Ok(v) => model_get(self@, name@) == Some(v@),
                Err(e) => e == Error::MissingKey && model_get(self@, name@) is None,
            },
    {
        let i = self.find(name);
        if i < self.entries.len() {
            Ok(&self.entries[i].value)
        } else {
            Err(Error::MissingKey)
        }
    }

    /// The value under `name`, or `default` where the store does not hold it.
    pub fn get_or_else<'a>(&'a self, name: &str, default: &'a Value) -> (v: &'a Value)
        ensures
            v@ == model_get_or(self@, name@, default@),
    {
        let i = self.find(name);
        if i < self.entries.len() {
            &self.entries[i].value
        } else {
            default
        }
    }

    /// Sets `name` to `value`: an entry of that name keeps its place, a new
    /// name goes to the end.
    pub fn set(&mut self, name: &str, value: Value)
        ensures
            final(self)@ == model_set(old(self)@, name@, value@),
    {
        let i = self.find(name);
        let entry = Entry { name: name.to_owned(), value };
        if i < self.entries.len() {
            self.entries.set(i, entry);
            assert(self@ =~= model_set(old(self)@, name@, value@));
        } else {
            self.entries.push(entry);
            assert(self@ =~= model_set(old(self)@, name@, value@));
        }
    }

    /// Takes every entry called `name` out of the store.
    pub fn remove(&mut self, name: &str)
        ensures
            final(self)@ == model_remove(old(self)@, name@),
    {
        let ghost all = self@;
        let ghost mut seen: int = 0;
        let mut i: usize = 0;
        assert(self@.subrange(0, 0) =~= model_remove(all.subrange(0, 0), name@));
        while i < self.entries.len()
            invariant
                0 <= seen <= all.len(),
                i <= self.entries@.len(),
                self@.len() - i == all.len() - seen,
                self@.subrange(0, i as int) == model_remove(all.subrange(0, seen), name@),
                self@.subrange(i as int, self@.len() as int) == all.subrange(
                    seen,
                    all.len() as int,
                ),
            decreases self.entries@.len() - i,
        {
            let ghost now = self@;
            let ghost more = all.subrange(0, seen + 1);
            assert(more.drop_last() =~= all.subrange(0, seen));
            assert forall|k: int| i <= k < now.len() implies #[trigger] now[k] == all[k - i
                + seen] by {
                assert(now.subrange(i as int, now.len() as int)[k - i] == all.subrange(
                    seen,
                    all.len() as int,
                )[k - i]);
            }
            assert(more.last() == now[i as int]);
            if str_eq(self.entries[i].name.as_str(), name) {
                let ghost held = self.entries@;
                self.entries.remove(i);
                assert(self.entries@ =~= held.remove(i as int));
                assert forall|k: int| i <= k < self@.len() implies #[trigger] self@[k] == now[k
                    + 1] by {
                    assert(self.entries@[k] == held[k + 1]);
                }
                assert forall|k: int| 0 <= k < i implies #[trigger] self@[k] == now[k] by {
                    assert(self.entries@[k] == held[k]);
                }
                assert(self@.subrange(0, i as int) =~= now.subrange(0, i as int));
                assert(self@.subrange(i as int, self@.len() as int) =~= all.subrange(
                    seen + 1,
                    all.len() as int,
                ));
            } else {
                i = i + 1;
                assert(self@.subrange(0, i as int) =~= now.subrange(0, i - 1).push(
                    now[i - 1],
                ));
                assert(self@.subrange(i as int, self@.len() as int) =~= all.subrange(
                    seen + 1,
                    all.len() as int,
                ));
            }
            proof {
                seen = seen + 1;
            }
        }
        assert(self@.subrange(0, self@.len() as int) =~= self@);
        assert(all.subrange(0, all.len() as int) =~= all);
    }

    /// The name of the entry at `i`.
    pub fn name_at(&self, i: usize) -> (name: &String)
        requires
            i < self@.len(),
        ensures
            name@ == self@[i as int].0,
    {
        &self.entries[i].name
    }

    /// The value of the entry at `i`.
    pub fn value_at(&self, i: usize) -> (v: &Value)
        requires
            i < self@.len(),
        ensures
            v@ == self@[i as int].1,
    {
        &self.entries[i].value
    }

    /// The names of the store, in order.
    pub fn get_var_names(&self) -> (names: Vec<String>)
        ensures
            names@.len() == self@.len(),
            forall|i: int| 0 <= i < names@.len() ==> (#[trigger] names@[i])@ == self@[i].0,
    {
        let mut names: Vec<String> = Vec::new();
        let mut i: usize = 0;
        while i < self.entries.len()
            invariant
                i <= self.entries@.len(),
                names@.len() == i,
                forall|j: int| 0 <= j < i ==> (#[trigger] names@[j])@ == self@[j].0,
            decreases self.entries@.len() - i,
        {
            names.push(self.entries[i].name.clone());
            i = i + 1;
        }
        names
    }

    /// Appends the text of the store to `buf`.
    pub fn write_to(&self, buf: &mut Vec<u8>)
        ensures
            final(buf)@ == old(buf)@ + render_stats(self@),
        decreases self, 1nat,
    {
        let mut i: usize = 0;
        assert(buf@ =~= old(buf)@ + render_entries(self@, 0));
        while i < self.entries.len()
            invariant
                i <= self.entries@.len(),
                buf@ == old(buf)@ + render_entries(self@, i as nat),
            decreases self.entries@.len() - i,
        {
            let ghost before = buf@;
            push_str(buf, self.entries[i].name.as_str());
            push_str(buf, ": ");
            self.entries[i].value.write_to(buf);
            push_str(buf, "\n");
            i = i + 1;
            assert(buf@ =~= old(buf)@ + render_entries(self@, i as nat));
        }
    }

    /// The text of the store.
    pub fn string(&self) -> (text: Vec<u8>)
        ensures
            text@ == render_stats(self@),
    {
        let mut text: Vec<u8> = Vec::new();
        self.write_to(&mut text);
        assert(text@ =~= render_stats(self@));
        text
    }
}

impl Value {
    /// Appends the text of the value to `buf`.
    pub fn write_to(&self, buf: &mut Vec<u8>)
        ensures
            final(buf)@ == old(buf)@ + render_value(self@),
        decreases self, 0nat,
    {
        match self {
            Value::Int(i) => {
                push_signed(buf, *i);
            },
            Value::Float(f) => {
                push_signed(buf, *f);
                push_str(buf, "e-6");
                assert(buf@ =~= old(buf)@ + render_value(self@));
            },
            Value::String(s) => {
                push_str(buf, s.as_str());
            },
            Value::LongString(s) => {
                push_str(buf, s.as_str());
            },
            Value::List(l) => {
                push_str(buf, "[");
                let ghost items = list_model(l@);
                assert(self@->List_0 =~= items);
                let ghost start = buf@;
                let mut i: usize = 0;
                assert(buf@ =~= start + render_items(items, 0));
                while i < l.len()
                    invariant
                        i <= l@.len(),
                        *self is List,
                        self->List_0 == *l,
                        items == list_model(l@),
                        buf@ == start + render_items(items, i as nat),
                    decreases l@.len() - i,
                {
                    assert(decreases_to!(*self => self->List_0));
                    l[i].write_to(buf);
                    push_str(buf, ",");
                    i = i + 1;
                    assert(buf@ =~= start + render_items(items, i as nat));
                }
                push_str(buf, "]");
                assert(buf@ =~= old(buf)@ + render_value(self@));
            },
            Value::Box(s) => {
                push_str(buf, "{");
                s.write_to(buf);
                push_str(buf, "}");
                assert(buf@ =~= old(buf)@ + render_value(self@));
            },
        }
    }
}

impl Clone for Value {
    /// A deep copy: the copy stands for the same value.
    fn clone(&self) -> (copy: Value)
        ensures
            copy@ == self@,
        decreases self, 0nat,
    {
        match self {
            Value::Int(i) => Value::Int(*i),
            Value::Float(f) => Value::Float(*f),
            Value::String(s) => Value::String(s.clone()),
            Value::LongString(s) => Value::LongString(s.clone()),
            Value::List(l) => {
                let mut items: Vec<Value> = Vec::new();
                let mut i: usize = 0;
                while i < l.len()
                    invariant
                        i <= l@.len(),
                        *self is List,
                        self->List_0 == *l,
                        items@.len() == i,
                        forall|j: int| 0 <= j < i ==> (#[trigger] items@[j])@ == l@[j]@,
                    decreases l@.len() - i,
                {
                    assert(decreases_to!(*self => self->List_0));
                    items.push(l[i].clone());
                    i = i + 1;
                }
                let copy = Value::List(items);
                assert(copy@->List_0 =~= self@->List_0);
                copy
            },
            Value::Box(s) => Value::Box(s.clone()),
        }
    }
}

impl Clone for Stats {
    /// A deep copy: the copy stands for the same store.
    fn clone(&self) -> (copy: Stats)
        ensures
            copy@ == self@,
        decreases self, 1nat,
    {
        let mut entries: Vec<Entry> = Vec::new();
        let mut i: usize = 0;
        while i < self.entries.len()
            invariant
                i <= self.entries@.len(),
                entries@.len() == i,
                forall|j: int|
                    0 <= j < i ==> (#[trigger] entries@[j]).name@ == self.entries@[j].name@
                        && entries@[j].value@ == self.entries@[j].value@,
            decreases self.entries@.len() - i,
        {
            entries.push(
                Entry { name: self.entries[i].name.clone(), value: self.entries[i].value.clone() },
            );
            i = i + 1;
        }
        let copy = Stats { entries };
        assert(copy@ =~= self@);
        copy
    }
}

impl Stats {
    /// The number under `name`, which must be there.
    pub fn get_int(&self, name: &str) -> (r: Result<i64, Error>)
        ensures
            r == model_int(self@, name@),
    {
        match self.get(name) {
            Ok(v) => v.as_int(),
            Err(e) => Err(e),
        }
    }

    /// The number under `name`, or `default` where the store does not hold
    /// the name.
    pub fn get_int_or(&self, name: &str, default: i64) -> (r: Result<i64, Error>)
        ensures
            r == model_int_or(self@, name@, default),
    {
        match self.get(name) {
            Ok(v) => v.as_int(),
            Err(_) => Ok(default),
        }
    }

    /// The millionths under `name`, or `default` where the store does not
    /// hold the name.
    pub fn get_flt_or(&self, name: &str, default: i64) -> (r: Result<i64, Error>)
        ensures
            r == model_flt_or(self@, name@, default),
    {
        match self.get(name) {
            Ok(v) => v.as_flt(),
            Err(_) => Ok(default),
        }
    }

    /// The short string under `name`, which must be there.
    pub fn get_string(&self, name: &str) -> (r: Result<&String, Error>)
        ensures
            match r {
                Ok(s) => model_string(self@, name@) == Ok::<Seq<char>, Error>(s@),
                Err(e) => model_string(self@, name@) == Err::<Seq<char>, Error>(e),
            },
    {
        match self.get(name) {
            Ok(v) => v.as_string(),
            Err(e) => Err(e),
        }
    }

    /// The list under `name`, which must be there.
    pub fn get_list(&self, name: &str) -> (r: Result<&Vec<Value>, Error>)
        ensures
            match r {
                Ok(l) => model_list(self@, name@) == Ok::<Seq<ValueModel>, Error>(
                    list_model(l@),
                ),
                Err(e) => model_list(self@, name@) == Err::<Seq<ValueModel>, Error>(e),
            },
    {
        match self.get(name) {
            Ok(v) => v.as_vec(),
            Err(e) => Err(e),
        }
    }

    /// The nested store under `name`, which must be there.
    pub fn get_box(&self, name: &str) -> (r: Result<&Stats, Error>)
        ensures
            match r {
                Ok(s) => model_box(self@, name@) == Ok::<StatsModel, Error>(s@),
                Err(e) => model_box(self@, name@) == Err::<StatsModel, Error>(e),
            },
    {
        match self.get(name) {
            Ok(v) => v.as_box(),
            Err(e) => Err(e),
        }
    }
}

/// The models of the items of a list.
pub open spec fn list_model(l: Seq<Value>) -> Seq<ValueModel> {
    Seq::new(l.len(), |i: int| value_model(l[i]))
}

} // verus!
