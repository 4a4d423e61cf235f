use vstd::prelude::*;

use crate::error::Error;
use vstd::string::StringExecFns;

verus! {

// The tag decoder: tag index pairs plus the layer's key and value
// dictionaries become a string-keyed property map.

/// A value from a layer's value dictionary: a closed variant of which
/// exactly the set fields matter. Float and double values are carried as
/// their raw bit patterns; turning those bits into text takes floating-point
/// formatting, which lives outside this crate.
#[derive(Clone, PartialEq, Debug)]
pub struct Value {
    pub string_value: Option<String>,
    pub float_bits: Option<u32>,
    pub double_bits: Option<u64>,
    pub int_value: Option<i64>,
    pub uint_value: Option<u64>,
    pub sint_value: Option<i64>,
    pub bool_value: Option<bool>,
}

impl Value {
    /// A value with no field set.
    pub fn empty() -> (r: Value)
        ensures
            r == (Value {
                string_value: None::<String>,
                float_bits: None::<u32>,
                double_bits: None::<u64>,
                int_value: None::<i64>,
                uint_value: None::<u64>,
                sint_value: None::<i64>,
                bool_value: None::<bool>,
            }),
    {
        Value {
            string_value: None,
            float_bits: None,
            double_bits: None,
            int_value: None,
            uint_value: None,
            sint_value: None,
            bool_value: None,
        }
    }
}

/// The mathematical shape of a dictionary value.
pub struct ValueModel {
    pub string_value: Option<Seq<char>>,
    pub float_bits: Option<u32>,
    pub double_bits: Option<u64>,
    pub int_value: Option<i64>,
    pub uint_value: Option<u64>,
    pub sint_value: Option<i64>,
    pub bool_value: Option<bool>,
}

impl View for Value {
    type V = ValueModel;

    open spec fn view(&self) -> ValueModel {
        ValueModel {
            string_value: match self.string_value {
                Some(s) => Some(s@),
                None => None,
            },
            float_bits: self.float_bits,
            double_bits: self.double_bits,
            int_value: self.int_value,
            uint_value: self.uint_value,
            sint_value: self.sint_value,
            bool_value: self.bool_value,
        }
    }
}

/// The mathematical shape of a stringified value: text, or the raw bits of a
/// float or double awaiting outside formatting.
pub enum TagModel {
    Text(Seq<char>),
    Float(u32),
    Double(u64),
}

/// A stringified value: text, or the raw bits of a float or double awaiting
/// outside formatting.
#[derive(Clone, PartialEq, Debug)]
pub enum TagValue {
    Text(String),
    Float(u32),
    Double(u64),
}

impl View for TagValue {
    type V = TagModel;

    open spec fn view(&self) -> TagModel {
        match self {
            TagValue::Text(s) => TagModel::Text(s@),
            TagValue::Float(b) => TagModel::Float(*b),
            TagValue::Double(b) => TagModel::Double(*b),
        }
    }
}

/// The decimal digit characters.
pub open spec fn dec_digit(d: nat) -> char {
    if d == 0 {
        '0'
    } else if d == 1 {
        '1'
    } else if d == 2 {
        '2'
    } else if d == 3 {
        '3'
    } else if d == 4 {
        '4'
    } else if d == 5 {
        '5'
    } else if d == 6 {
        '6'
    } else if d == 7 {
        '7'
    } else if d == 8 {
        '8'
    } else {
        '9'
    }
}

/// The decimal rendering of a natural number.
pub open spec fn u64_dec(n: nat) -> Seq<char>
    decreases n,
{
    if n < 10 {
        seq![dec_digit(n)]
    } else {
        u64_dec(n / 10).push(dec_digit(n % 10))
    }
}

/// The decimal rendering of an integer: a minus sign before the magnitude.
pub open spec fn i64_dec(n: int) -> Seq<char> {
    if n < 0 {
        seq!['-'] + u64_dec((-n) as nat)
    } else {
        u64_dec(n as nat)
    }
}

/// What `u64_dec` still owes once the low digits are written: rendering `m`
/// before an already-written tail.
spec fn dec_rev(m: nat, acc: Seq<char>) -> Seq<char>
    decreases m,
{
    if m < 10 {
        seq![dec_digit(m)] + acc
    } else {
        dec_rev(m / 10, seq![dec_digit(m % 10)] + acc)
    }
}

proof fn lemma_dec_rev(m: nat, acc: Seq<char>)
    ensures
        dec_rev(m, acc) == u64_dec(m) + acc,
    decreases m,
{
    if m < 10 {
        assert(seq![dec_digit(m)] + acc =~= u64_dec(m) + acc);
    } else {
        lemma_dec_rev(m / 10, seq![dec_digit(m % 10)] + acc);
        assert(u64_dec(m / 10) + (seq![dec_digit(m % 10)] + acc) =~= u64_dec(m) + acc);
    }
}

/// Relies on String::from_utf8: bytes below 128 are valid UTF-8 and decode
/// one-to-one to the characters with the same code points.
#[verifier::external_body]
fn ascii_to_string(bytes: Vec<u8>) -> (r: String)
    requires
        forall|i: int| 0 <= i < bytes@.len() ==> bytes@[i] < 128,
    ensures
        r@ == bytes@.map_values(|b: u8| b as char),
{
    match String::from_utf8(bytes) {
        Ok(s) => s,
        Err(_) => String::new(),
    }
}

/// Render a natural number in decimal.
pub fn u64_to_string(n: u64) -> (r: String)
    ensures
        r@ == u64_dec(n as nat),
{
    let mut bytes: Vec<u8> = Vec::new();
    let mut m: u64 = n;
    proof {
        lemma_dec_rev(n as nat, Seq::<char>::empty());
        assert(bytes@.map_values(|b: u8| b as char) =~= Seq::<char>::empty());
    }
    while m >= 10
        invariant
            dec_rev(m as nat, bytes@.map_values(|b: u8| b as char)) == u64_dec(n as nat),
            forall|i: int| 0 <= i < bytes@.len() ==> bytes@[i] < 128,
        decreases m,
    {
        let d = (m % 10) as u8;
        let ghost pre = bytes@.map_values(|b: u8| b as char);
        bytes.insert(0, 48 + d);
        proof {
            assert((48 + d) as char == dec_digit((m % 10) as nat));
            assert(bytes@.map_values(|b: u8| b as char) =~= seq![dec_digit((m % 10) as nat)]
                + pre);
        }
        m = m / 10;
    }
    let d = m as u8;
    let ghost pre = bytes@.map_values(|b: u8| b as char);
    bytes.insert(0, 48 + d);
    proof {
        assert((48 + d) as char == dec_digit(m as nat));
        assert(bytes@.map_values(|b: u8| b as char) =~= seq![dec_digit(m as nat)] + pre);
    }
    ascii_to_string(bytes)
}

/// Render an integer in decimal.
pub fn i64_to_string(n: i64) -> (r: String)
    ensures
        r@ == i64_dec(n as int),
{
    if n >= 0 {
        u64_to_string(n as u64)
    } else {
        let mag: u64 = (-(n as i128)) as u64;
        let digits = u64_to_string(mag);
        let minus = String::from_str("-");
        proof {
            reveal_strlit("-");
        }
        let r = minus.concat(digits.as_str());
        proof {
            assert(r@ =~= seq!['-'] + u64_dec(mag as nat));
        }
        r
    }
}

/// The text a boolean renders to.
pub open spec fn bool_dec(b: bool) -> Seq<char> {
    if b {
        "true"@
    } else {
        "false"@
    }
}

/// The stringification of a value: the first set field wins, in the fixed
/// order string, float, double, int, uint, sint, bool; a value with no field
/// set renders as the empty text.
pub open spec fn value_text_spec(v: ValueModel) -> TagModel {
    if v.string_value is Some {
        TagModel::Text(v.string_value.unwrap())
    } else if v.float_bits is Some {
        TagModel::Float(v.float_bits.unwrap())
    } else if v.double_bits is Some {
        TagModel::Double(v.double_bits.unwrap())
    } else if v.int_value is Some {
        TagModel::Text(i64_dec(v.int_value.unwrap() as int))
    } else if v.uint_value is Some {
        TagModel::Text(u64_dec(v.uint_value.unwrap() as nat))
    } else if v.sint_value is Some {
        TagModel::Text(i64_dec(v.sint_value.unwrap() as int))
    } else if v.bool_value is Some {
        TagModel::Text(bool_dec(v.bool_value.unwrap()))
    } else {
        TagModel::Text(Seq::empty())
    }
}

/// Stringify a value: the first set field wins, in the order string, float,
/// double, int, uint, sint, bool.
pub fn get_string_value(value: &Value) -> (r: TagValue)
    ensures
        r@ == value_text_spec(value@),
{
    match &value.string_value {
        Some(s) => {
            return TagValue::Text(s.clone());
        },
        None => (),
    }
    match &value.float_bits {
        Some(b) => {
            return TagValue::Float(*b);
        },
        None => (),
    }
    match &value.double_bits {
        Some(b) => {
            return TagValue::Double(*b);
        },
        None => (),
    }
    match &value.int_value {
        Some(n) => {
            return TagValue::Text(i64_to_string(*n));
        },
        None => (),
    }
    match &value.uint_value {
        Some(n) => {
            return TagValue::Text(u64_to_string(*n));
        },
        None => (),
    }
    match &value.sint_value {
        Some(n) => {
            return TagValue::Text(i64_to_string(*n));
        },
        None => (),
    }
    match &value.bool_value {
        Some(b) => {
            let r = if *b {
                String::from_str("true")
            } else {
                String::from_str("false")
            };
            return TagValue::Text(r);
        },
        None => (),
    }
    TagValue::Text(String::new())
}

// The property map: an association list whose keys stay unique, so that it
// reads as a map from key text to stringified value.

/// The view of one property entry.
pub open spec fn entry_view(e: (String, TagValue)) -> (Seq<char>, TagModel) {
    (e.0@, e.1@)
}

/// The view of a property list.
pub open spec fn entries_view(es: Seq<(String, TagValue)>) -> Seq<(Seq<char>, TagModel)> {
    es.map_values(|e: (String, TagValue)| entry_view(e))
}

/// No two entries share a key.
pub open spec fn keys_unique(es: Seq<(Seq<char>, TagModel)>) -> bool {
    forall|i: int, j: int| 0 <= i < j < es.len() ==> (#[trigger] es[i]).0 != (#[trigger] es[j]).0
}

/// Insert into an association list: replace the entry with the same key, or
/// append a new one.
pub open spec fn seq_insert_entry(
    es: Seq<(Seq<char>, TagModel)>,
    k: Seq<char>,
    v: TagModel,
) -> Seq<(Seq<char>, TagModel)> {
    if exists|i: int| 0 <= i < es.len() && (#[trigger] es[i]).0 == k {
        let i = choose|i: int| 0 <= i < es.len() && (#[trigger] es[i]).0 == k;
        es.update(i, (k, v))
    } else {
        es.push((k, v))
    }
}

/// The first value stored under a key, if any.
pub open spec fn spec_get(es: Seq<(Seq<char>, TagModel)>, k: Seq<char>) -> Option<TagModel>
    decreases es.len(),
{
    if es.len() == 0 {
        None
    } else if es[0].0 == k {
        Some(es[0].1)
    } else {
        spec_get(es.drop_first(), k)
    }
}

/// A string-keyed property map with unique keys.
#[derive(Debug, PartialEq, Clone)]
pub struct Properties {
    pub entries: Vec<(String, TagValue)>,
}

impl View for Properties {
    type V = Seq<(Seq<char>, TagModel)>;

    open spec fn view(&self) -> Seq<(Seq<char>, TagModel)> {
        entries_view(self.entries@)
    }
}

impl Properties {
    /// A map with no entries.
    pub fn new() -> (r: Properties)
        ensures
            r@ =~= Seq::<(Seq<char>, TagModel)>::empty(),
            keys_unique(r@),
    {
        Properties { entries: Vec::new() }
    }

    /// How many keys the map holds.
    pub fn len(&self) -> (n: usize)
        ensures
            n == self@.len(),
    {
        self.entries.len()
    }

    /// Store a value under a key, replacing what the key held before.
    pub fn insert(&mut self, key: String, value: TagValue)
        requires
            keys_unique(old(self)@),
        ensures
            keys_unique(final(self)@),
            final(self)@ == seq_insert_entry(old(self)@, key@, value@),
    {
        let n = self.entries.len();
        let mut i: usize = 0;
        while i < n
            invariant
                n == self.entries@.len(),
                i <= n,
                *self == *old(self),
                keys_unique(old(self)@),
                forall|j: int| 0 <= j < i ==> (#[trigger] old(self)@[j]).0 != key@,
            decreases n - i,
        {
            if self.entries[i].0 == key {
                let ghost pre = self@;
                proof {
                    assert(pre[i as int].0 == key@);
                }
                self.entries.set(i, (key, value));
                proof {
                    assert(self@ =~= pre.update(i as int, (key@, value@)));
                    assert(exists|j: int| 0 <= j < pre.len() && (#[trigger] pre[j]).0 == key@);
                    let j = choose|j: int| 0 <= j < pre.len() && (#[trigger] pre[j]).0 == key@;
                    if j != i as int {
                        assert(pre[j].0 != pre[i as int].0);
                    }
                    assert(self@ == seq_insert_entry(pre, key@, value@));
                    assert(forall|a: int, b: int|
                        0 <= a < b < self@.len() ==> (#[trigger] self@[a]).0 != (
                        #[trigger] self@[b]).0) by {
                        assert(forall|a: int|
                            0 <= a < self@.len() && a != i as int ==> (#[trigger] self@[a]).0
                                == pre[a].0);
                    }
                }
                return ;
            }
            i = i + 1;
        }
        let ghost pre = self@;
        self.entries.push((key, value));
        proof {
            assert(forall|j: int| 0 <= j < pre.len() ==> (#[trigger] pre[j]).0 != key@);
            assert(!(exists|j: int| 0 <= j < pre.len() && (#[trigger] pre[j]).0 == key@));
            assert(self@ =~= pre.push((key@, value@)));
            assert(forall|a: int|
                0 <= a < pre.len() ==> (#[trigger] self@[a]) == pre[a]);
        }
    }

    /// Look a key up.
    pub fn get(&self, key: &String) -> (r: Option<&TagValue>)
        ensures
            match r {
                Some(v) => spec_get(self@, key@) == Some(v@),
                None => spec_get(self@, key@) is None,
            },
    {
        let n = self.entries.len();
        let mut i: usize = 0;
        proof {
            assert(self@.skip(0int) =~= self@);
        }
        while i < n
            invariant
                n == self.entries@.len(),
                i <= n,
                spec_get(self@.skip(i as int), key@) == spec_get(self@, key@),
            decreases n - i,
        {
            proof {
                assert(self@.skip(i as int)[0] == self@[i as int]);
                assert(self@.skip(i as int).drop_first() =~= self@.skip(i + 1 as int));
            }
            if self.entries[i].0 == *key {
                return Some(&self.entries[i].1);
            }
            i = i + 1;
        }
        proof {
            assert(self@.skip(n as int) =~= Seq::<(Seq<char>, TagModel)>::empty());
        }
        None
    }
}

/// The property map a tag list folds to: pairs of key and value indices
/// consumed in order, each resolved against the dictionaries. `None` marks a
/// fatal tag error: an index out of range, or a dangling index at the end.
pub open spec fn tags_model(
    tags: Seq<u32>,
    keys: Seq<Seq<char>>,
    values: Seq<ValueModel>,
    acc: Seq<(Seq<char>, TagModel)>,
) -> Option<Seq<(Seq<char>, TagModel)>>
    decreases tags.len(),
{
    if tags.len() == 0 {
        Some(acc)
    } else if tags.len() == 1 {
        None
    } else {
        let ki = tags[0];
        let vi = tags[1];
        if ki >= keys.len() || vi >= values.len() {
            None
        } else {
            tags_model(
                tags.skip(2),
                keys,
                values,
                seq_insert_entry(acc, keys[ki as int], value_text_spec(values[vi as int])),
            )
        }
    }
}

/// The views of a key dictionary.
pub open spec fn keys_view(keys: Seq<String>) -> Seq<Seq<char>> {
    keys.map_values(|k: String| k@)
}

/// The views of a value dictionary.
pub open spec fn values_view(values: Seq<Value>) -> Seq<ValueModel> {
    values.map_values(|v: Value| v@)
}

/// Decode a feature's tag pairs against the layer dictionaries. Consumed two
/// at a time: a key index, a value index. Any index out of range is a fatal
/// `TagIndexOutOfRange` for this feature, never silently skipped; so is a
/// dangling final index.
pub fn parse_tags(tags: &Vec<u32>, keys: &Vec<String>, values: &Vec<Value>) -> (r: Result<
    Properties,
    Error,
>)
    ensures
        r is Ok <==> tags_model(tags@, keys_view(keys@), values_view(values@), Seq::empty())
            is Some,
        r is Ok ==> r.unwrap()@ == tags_model(
            tags@,
            keys_view(keys@),
            values_view(values@),
            Seq::empty(),
        ).unwrap(),
        r is Ok ==> keys_unique(r.unwrap()@),
        r is Err ==> r.unwrap_err() == Error::TagIndexOutOfRange,
{
    let mut props = Properties::new();
    let n = tags.len();
    let mut t: usize = 0;
    proof {
        assert(tags@.skip(0int) =~= tags@);
        assert(props@ =~= Seq::<(Seq<char>, TagModel)>::empty());
    }
    while t < n
        invariant
            n == tags@.len(),
            t <= n,
            t % 2 == 0,
            keys_unique(props@),
            tags_model(tags@.skip(t as int), keys_view(keys@), values_view(values@), props@)
                == tags_model(tags@, keys_view(keys@), values_view(values@), Seq::empty()),
        decreases n - t,
    {
        let ghost rest = tags@.skip(t as int);
        if t + 1 >= n {
            proof {
                assert(rest.len() == 1);
            }
            return Err(Error::TagIndexOutOfRange);
        }
        let ki = tags[t];
        let vi = tags[t + 1];
        proof {
            assert(rest[0] == tags@[t as int]);
            assert(rest[1] == tags@[t + 1 as int]);
            assert(rest.skip(2) =~= tags@.skip(t + 2 as int));
        }
        if ki as usize >= keys.len() || vi as usize >= values.len() {
            return Err(Error::TagIndexOutOfRange);
        }
        let key = keys[ki as usize].clone();
        let value = get_string_value(&values[vi as usize]);
        props.insert(key, value);
        t = t + 2;
    }
    proof {
        assert(tags@.skip(n as int) =~= Seq::<u32>::empty());
    }
    Ok(props)
}

} // verus!
