//! Values in one machine word.

use crate::objects;
use crate::objects::{Val, Value};
use crate::strings;
use vstd::prelude::*;

verus! {

/// A tagged word. The top bit marks an integer, of which the other bits hold the low 63
/// bits; small words are null and the booleans; the rest are places of values that do not
/// fit.
#[derive(Clone, Copy, Debug)]
pub struct FastValue(pub u64);

const TAG_INT: u64 = 0x8000_0000_0000_0000;

const TAG_MASK: u64 = 0xE000_0000_0000_0000;

const TAG_NULL: u64 = 1;

const TAG_TRUE: u64 = 2;

const TAG_FALSE: u64 = 3;

const TAG_PTR: u64 = 4;

/// How many values can have places.
pub const PLACES: u64 = 0x1_0000_0000_0000;

/// A value that does not fit in a word.
#[derive(Debug)]
pub struct BoxPayload {
    pub value: Value,
}

/// The values that words give places to.
#[derive(Debug)]
pub struct Payloads {
    boxes: Vec<BoxPayload>,
}

impl View for Payloads {
    type V = Seq<Val>;

    closed spec fn view(&self) -> Seq<Val> {
        self.boxes@.map_values(|b: BoxPayload| b.value@)
    }
}

impl Payloads {
    /// No values.
    pub fn new() -> (r: Payloads)
        ensures
            r@ == Seq::<Val>::empty(),
    {
        let r = Payloads { boxes: Vec::new() };
        assert(r@ =~= Seq::<Val>::empty());
        r
    }

    /// How many values have places.
    pub fn len(&self) -> (r: usize)
        ensures
            r == self@.len(),
    {
        self.boxes.len()
    }
}

/// The integer that a word keeps of an integer: the same one, where it fits in 63 bits.
pub open spec fn int_held(i: i64) -> i64 {
    if i >= 0x4000_0000_0000_0000 {
        (i - 0x8000_0000_0000_0000) as i64
    } else if i < -0x4000_0000_0000_0000 {
        (i + 0x8000_0000_0000_0000) as i64
    } else {
        i
    }
}

/// The value that a word keeps of a value.
pub open spec fn held(v: Val) -> Val {
    match v {
        Val::Int(i) => Val::Int(int_held(i)),
        _ => v,
    }
}

/// The integer of a word that is one.
pub open spec fn word_int(w: u64) -> i64 {
    let low = w - 0x8000_0000_0000_0000;
    if low >= 0x4000_0000_0000_0000 {
        (low - 0x8000_0000_0000_0000) as i64
    } else {
        low as i64
    }
}

/// The place that a word names.
pub open spec fn word_place(w: u64) -> Option<int> {
    if w % 16 == 4 {
        Some(w as int / 16)
    } else {
        None
    }
}

/// The value that a word stands for, given the values that have places.
pub open spec fn word_value(w: u64, places: Seq<Val>) -> Val {
    if int_word(w) {
        Val::Int(word_int(w))
    } else if w == 2 {
        Val::Bool(true)
    } else if w == 3 {
        Val::Bool(false)
    } else if w == 1 {
        Val::Null
    } else {
        match word_place(w) {
            Some(p) => if p < places.len() {
                places[p]
            } else {
                Val::Null
            },
            None => Val::Null,
        }
    }
}

/// A word that names a place names one that is taken.
pub open spec fn placed(w: u64, places: Seq<Val>) -> bool {
    !int_word(w) ==> (word_place(w) matches Some(p) ==> p < places.len())
}

/// A word that is an integer.
pub open spec fn int_word(w: u64) -> bool {
    w >= 0x8000_0000_0000_0000
}

/// A word that is a boolean.
pub open spec fn bool_word(w: u64) -> bool {
    w == 2 || w == 3
}

/// A word that is null.
pub open spec fn null_word(w: u64) -> bool {
    w == 1
}

/// A word that lies where those that name places lie.
pub open spec fn place_word(w: u64) -> bool {
    4 <= w <= 0x000F_FFFF_FFFF_FFFF
}

/// The word that a value gets where `taken` values have places.
pub open spec fn word_of(w: u64, v: Val, taken: nat) -> bool {
    match v {
        Val::Null => null_word(w),
        Val::Bool(b) => w == (if b {
            2u64
        } else {
            3u64
        }),
        Val::Int(i) => int_word(w) && word_int(w) == int_held(i),
        _ => place_word(w) && word_place(w) == Some(taken as int),
    }
}

/// The word of a value is of exactly one sort, and that is the value's: null, a boolean, an
/// integer or a place.
pub proof fn law_word_sorts(w: u64, v: Val, taken: nat)
    requires
        word_of(w, v, taken),
    ensures
        null_word(w) <==> v is Null,
        bool_word(w) <==> v is Bool,
        int_word(w) <==> v is Int,
        place_word(w) <==> !(v is Null || v is Bool || v is Int),
{
}

/// A word means the same when more values have places.
pub proof fn law_word_stable(w: u64, places: Seq<Val>, v: Val)
    requires
        placed(w, places),
    ensures
        placed(w, places.push(v)),
        word_value(w, places.push(v)) == word_value(w, places),
{
}

/// An integer comes back from a word exactly if it fits in 63 bits.
pub proof fn law_int_round_trip(i: i64)
    ensures
        (int_held(i) == i) <==> -0x4000_0000_0000_0000 <= i < 0x4000_0000_0000_0000,
{
}

/// Keeping what was kept changes nothing.
pub proof fn law_held_idempotent(v: Val)
    ensures
        held(held(v)) == held(v),
{
}

impl FastValue {
    /// Null.
    pub fn null() -> (r: FastValue)
        ensures
            null_word(r.0),
            forall|places: Seq<Val>| #[trigger] word_value(r.0, places) == Val::Null,
            forall|places: Seq<Val>| #[trigger] placed(r.0, places),
    {
        FastValue(TAG_NULL)
    }

    /// A boolean.
    pub fn from_bool(b: bool) -> (r: FastValue)
        ensures
            r.0 == (if b {
                2u64
            } else {
                3u64
            }),
            forall|places: Seq<Val>| #[trigger] word_value(r.0, places) == Val::Bool(b),
            forall|places: Seq<Val>| #[trigger] placed(r.0, places),
    {
        if b {
            FastValue(TAG_TRUE)
        } else {
            FastValue(TAG_FALSE)
        }
    }

    /// An integer, as far as it fits.
    pub fn from_int(i: i64) -> (r: FastValue)
        ensures
            int_word(r.0),
            word_int(r.0) == int_held(i),
            forall|places: Seq<Val>| #[trigger]
                word_value(r.0, places) == Val::Int(int_held(i)),
            forall|places: Seq<Val>| #[trigger] placed(r.0, places),
    {
        let low = i as u64 & 0x7FFF_FFFF_FFFF_FFFF;
        let word = low | TAG_INT;
        assert(low < 0x8000_0000_0000_0000 && word == low + 0x8000_0000_0000_0000) by (bit_vector)
            requires
                low == (i as u64) & 0x7FFF_FFFF_FFFF_FFFFu64,
                word == low | 0x8000_0000_0000_0000u64,
        ;
        assert(if i >= 0 {
            low == i
        } else {
            low == i + 0x8000_0000_0000_0000
        }) by (bit_vector)
            requires
                low == (i as u64) & 0x7FFF_FFFF_FFFF_FFFFu64,
        ;
        FastValue(word)
    }

    /// A value: an integer as far as it fits, and where the word has no room for it, its
    /// place.
    pub fn from_value(v: Value, places: &mut Payloads) -> (r: FastValue)
        requires
            old(places)@.len() < PLACES,
        ensures
            word_of(r.0, v@, old(places)@.len()),
            word_value(r.0, final(places)@) == held(v@),
            placed(r.0, final(places)@),
            final(places)@ == (match v@ {
                Val::Null | Val::Bool(_) | Val::Int(_) => old(places)@,
                _ => old(places)@.push(v@),
            }),
    {
        match v {
            Value::Null => FastValue::null(),
            Value::Bool(b) => FastValue::from_bool(b),
            Value::Int(i) => FastValue::from_int(i),
            other => {
                let place = places.boxes.len() as u64;
                let ghost before = places@;
                places.boxes.push(BoxPayload { value: other });
                assert(places@ =~= before.push(other@));
                let shifted = place << 4;
                let word = shifted | TAG_PTR;
                assert(word == place * 16 + 4) by (bit_vector)
                    requires
                        place < 0x1_0000_0000_0000u64,
                        shifted == place << 4,
                        word == shifted | 4u64,
                ;
                FastValue(word)
            },
        }
    }

    /// Whether the word is an integer.
    pub fn is_int(&self) -> (r: bool)
        ensures
            r == int_word(self.0),
    {
        let w = self.0;
        assert((w & 0x8000_0000_0000_0000u64 != 0) == (w >= 0x8000_0000_0000_0000)) by (bit_vector);
        (self.0 & TAG_INT) != 0
    }

    /// The integer of the word.
    pub fn as_int(&self) -> (r: Option<i64>)
        ensures
            r == if int_word(self.0) {
                Some(word_int(self.0))
            } else {
                None
            },
    {
        if self.is_int() {
            let w = self.0;
            let low = w & 0x7FFF_FFFF_FFFF_FFFF;
            assert(low == w - 0x8000_0000_0000_0000) by (bit_vector)
                requires
                    low == w & 0x7FFF_FFFF_FFFF_FFFFu64,
                    w >= 0x8000_0000_0000_0000,
            ;
            if low >= 0x4000_0000_0000_0000 {
                Some((low as i128 - 0x8000_0000_0000_0000) as i64)
            } else {
                Some(low as i64)
            }
        } else {
            None
        }
    }

    /// Whether the word is a boolean.
    pub fn is_bool(&self) -> (r: bool)
        ensures
            r == bool_word(self.0),
    {
        self.0 == TAG_TRUE || self.0 == TAG_FALSE
    }

    /// The boolean of the word.
    pub fn as_bool(&self) -> (r: Option<bool>)
        ensures
            r == if self.0 == 2 {
                Some(true)
            } else if self.0 == 3 {
                Some(false)
            } else {
                None
            },
    {
        if self.0 == TAG_TRUE {
            Some(true)
        } else if self.0 == TAG_FALSE {
            Some(false)
        } else {
            None
        }
    }

    /// Whether the word is null.
    pub fn is_null(&self) -> (r: bool)
        ensures
            r == null_word(self.0),
    {
        self.0 == TAG_NULL
    }

    /// Whether the word lies where those that name places lie.
    pub fn is_ptr(&self) -> (r: bool)
        ensures
            r == place_word(self.0),
    {
        let w = self.0;
        assert(w <= 0x000F_FFFF_FFFF_FFFF ==> w & 0xE000_0000_0000_0000u64 == 0) by (bit_vector);
        self.0 == TAG_PTR || ((self.0 & TAG_MASK) == 0 && self.0 >= TAG_PTR && self.0
            <= 0x000F_FFFF_FFFF_FFFF)
    }

    /// The place that the word names.
    pub fn as_ptr(&self) -> (r: Option<u64>)
        ensures
            match r {
                Some(p) => word_place(self.0) == Some(p as int),
                None => word_place(self.0) is None,
            },
    {
        let w = self.0;
        assert(w & 0xF == w % 16) by (bit_vector);
        if (self.0 & 0xF) == TAG_PTR {
            Some(self.0 / 16)
        } else {
            None
        }
    }

    /// The value that the word stands for.
    pub fn to_value(&self, places: &Payloads) -> (r: Value)
        ensures
            r@ == word_value(self.0, places@),
    {
        match self.as_int() {
            Some(i) => {
                return Value::Int(i);
            },
            None => {},
        }
        match self.as_bool() {
            Some(b) => {
                return Value::Bool(b);
            },
            None => {},
        }
        if self.is_null() {
            return Value::Null;
        }
        match self.as_ptr() {
            Some(p) => {
                if (p as u128) < places.boxes.len() as u128 {
                    places.boxes[p as usize].value.clone()
                } else {
                    Value::Null
                }
            },
            None => Value::Null,
        }
    }

    /// Whether the word stands for a given string.
    pub fn eq_str(&self, expected: &str, places: &Payloads) -> (r: bool)
        ensures
            r == (word_value(self.0, places@) == Val::String(expected@)),
    {
        match self.to_value(places) {
            Value::String(s) => strings::str_eq(s.as_str(), expected),
            _ => false,
        }
    }
}

} // verus!
