//! The partial update record a producer sends for one scene item.
//!
//! A record names its target item and carries up to three independently
//! optional fields.  An absent field means "unchanged since the last flush",
//! not "reset to a default".  The numeric components are kept as the bytes of
//! their wire literals: the relay forwards numbers, it never computes with
//! them.

use vstd::prelude::*;
use vstd::std_specs::cmp::PartialEqSpec;

use crate::color::Color;

verus! {

/// True for bytes that may appear in a number literal: digits, sign,
/// decimal point and exponent markers.
pub open spec fn is_num_byte(b: u8) -> bool {
    (0x30 <= b <= 0x39) || b == 0x2d || b == 0x2b || b == 0x2e || b == 0x65 || b == 0x45
}

/// True for an ASCII digit.
pub open spec fn is_digit(b: u8) -> bool {
    0x30 <= b <= 0x39
}

/// First position at or after `i` that does not hold a digit.
pub open spec fn digit_run_end(s: Seq<u8>, i: int) -> int
    recommends
        0 <= i <= s.len(),
    decreases s.len() - i,
{
    if i < s.len() && is_digit(s[i]) {
        digit_run_end(s, i + 1)
    } else {
        i
    }
}

/// `digit_run_end` is the end of the maximal digit run starting at `i`.
pub proof fn lemma_digit_run_end(s: Seq<u8>, i: int)
    requires
        0 <= i <= s.len(),
    ensures
        i <= digit_run_end(s, i) <= s.len(),
        forall|k: int| i <= k < digit_run_end(s, i) ==> is_digit(#[trigger] s[k]),
        digit_run_end(s, i) == s.len() || !is_digit(s[digit_run_end(s, i)]),
    decreases s.len() - i,
{
    if i < s.len() && is_digit(s[i]) {
        lemma_digit_run_end(s, i + 1);
    }
}

/// Any maximal digit run starting at `i` ends where `digit_run_end` says.
pub proof fn lemma_digit_run_unique(s: Seq<u8>, i: int, j: int)
    requires
        0 <= i <= j <= s.len(),
        forall|k: int| i <= k < j ==> is_digit(#[trigger] s[k]),
        j == s.len() || !is_digit(s[j]),
    ensures
        digit_run_end(s, i) == j,
{
    lemma_digit_run_end(s, i);
    let e = digit_run_end(s, i);
    if e < j {
        assert(is_digit(s[e]));
        assert(false);
    }
    if e > j {
        assert(is_digit(s[j]));
        assert(false);
    }
}

/// A JSON number literal, read left to right: an optional minus, an
/// integer part with no surplus leading zero, an optional fraction of a
/// point and digits, and an optional exponent of `e`/`E`, an optional
/// sign, and digits.
pub open spec fn is_json_number(s: Seq<u8>) -> bool {
    let i0: int = if s.len() > 0 && s[0] == 0x2d {
        1
    } else {
        0
    };
    let i1 = digit_run_end(s, i0);
    if i1 == i0 {
        false
    } else if s[i0] == 0x30 && i1 > i0 + 1 {
        false
    } else {
        let frac = i1 < s.len() && s[i1] == 0x2e;
        let i2 = if frac {
            digit_run_end(s, i1 + 1)
        } else {
            i1
        };
        if frac && i2 == i1 + 1 {
            false
        } else {
            let has_exp = i2 < s.len() && (s[i2] == 0x65 || s[i2] == 0x45);
            let e0 = if has_exp {
                if i2 + 1 < s.len() && (s[i2 + 1] == 0x2b || s[i2 + 1] == 0x2d) {
                    i2 + 2
                } else {
                    i2 + 1
                }
            } else {
                i2
            };
            let i3 = if has_exp {
                digit_run_end(s, e0)
            } else {
                i2
            };
            if has_exp && i3 == e0 {
                false
            } else {
                i3 == s.len()
            }
        }
    }
}

/// True for one number literal as the wire carries it: a JSON number.
pub open spec fn is_num(s: Seq<u8>) -> bool {
    is_json_number(s)
}

/// Every byte of a JSON number literal is a number-literal byte.
pub proof fn lemma_json_number_bytes(s: Seq<u8>)
    requires
        is_json_number(s),
    ensures
        s.len() > 0,
        forall|k: int| 0 <= k < s.len() ==> is_num_byte(#[trigger] s[k]),
{
    let i0: int = if s.len() > 0 && s[0] == 0x2d {
        1
    } else {
        0
    };
    let i1 = digit_run_end(s, i0);
    lemma_digit_run_end(s, i0);
    let frac = i1 < s.len() && s[i1] == 0x2e;
    let i2 = if frac {
        digit_run_end(s, i1 + 1)
    } else {
        i1
    };
    if frac {
        lemma_digit_run_end(s, i1 + 1);
    }
    let has_exp = i2 < s.len() && (s[i2] == 0x65 || s[i2] == 0x45);
    let e0 = if has_exp {
        if i2 + 1 < s.len() && (s[i2 + 1] == 0x2b || s[i2 + 1] == 0x2d) {
            i2 + 2
        } else {
            i2 + 1
        }
    } else {
        i2
    };
    if has_exp {
        lemma_digit_run_end(s, e0);
    }
    assert forall|k: int| 0 <= k < s.len() implies is_num_byte(#[trigger] s[k]) by {
        if k < i0 {
        } else if k < i1 {
        } else if frac && k == i1 {
        } else if frac && k < i2 {
        } else if has_exp && k == i2 {
        } else if has_exp && k < e0 {
        } else {
        }
    }
}

/// True for bytes that may appear in an item id: printable ASCII other than
/// the quote and the backslash, so the id needs no escaping on the wire.
pub open spec fn is_id_byte(b: u8) -> bool {
    0x20 <= b <= 0x7e && b != 0x22 && b != 0x5c
}

/// True for an id made of such bytes.
pub open spec fn is_id(s: Seq<u8>) -> bool {
    forall|i: int| 0 <= i < s.len() ==> is_id_byte(#[trigger] s[i])
}

/// A three-component numeric vector, each component the bytes of its number
/// literal as it stood on the wire.
#[derive(Debug, PartialEq, Eq)]
pub struct Vector3 {
    pub x: Vec<u8>,
    pub y: Vec<u8>,
    pub z: Vec<u8>,
}

/// Mathematical image of a [`Vector3`].
pub ghost struct Vector3View {
    pub x: Seq<u8>,
    pub y: Seq<u8>,
    pub z: Seq<u8>,
}

impl View for Vector3 {
    type V = Vector3View;

    open spec fn view(&self) -> Vector3View {
        Vector3View { x: self.x@, y: self.y@, z: self.z@ }
    }
}

impl Vector3View {
    /// Each component is a non-empty number literal.
    pub open spec fn wf(self) -> bool {
        is_num(self.x) && is_num(self.y) && is_num(self.z)
    }
}

/// One partial update for one scene item.
#[derive(Debug, PartialEq, Eq)]
pub struct UpdateRecord {
    pub id: Vec<u8>,
    pub rotation: Option<Vector3>,
    pub position: Option<Vector3>,
    pub color: Option<Color>,
}

/// Mathematical image of an [`UpdateRecord`].
pub ghost struct UpdateRecordView {
    pub id: Seq<u8>,
    pub rotation: Option<Vector3View>,
    pub position: Option<Vector3View>,
    pub color: Option<Color>,
}

impl View for UpdateRecord {
    type V = UpdateRecordView;

    open spec fn view(&self) -> UpdateRecordView {
        UpdateRecordView {
            id: self.id@,
            rotation: match self.rotation {
                Some(v) => Some(v@),
                None => None,
            },
            position: match self.position {
                Some(v) => Some(v@),
                None => None,
            },
            color: self.color,
        }
    }
}

impl UpdateRecordView {
    /// The id is unescaped printable ASCII and every present vector is made
    /// of number literals, so the record has a canonical wire form.
    pub open spec fn wf(self) -> bool {
        &&& is_id(self.id)
        &&& match self.rotation {
            Some(v) => v.wf(),
            None => true,
        }
        &&& match self.position {
            Some(v) => v.wf(),
            None => true,
        }
    }
}

/// The record views of a sequence of records.
pub open spec fn views_of(s: Seq<UpdateRecord>) -> Seq<UpdateRecordView> {
    s.map_values(|r: UpdateRecord| r@)
}

pub(crate) fn num_byte(b: u8) -> (r: bool)
    ensures
        r == is_num_byte(b),
{
    (0x30 <= b && b <= 0x39) || b == 0x2d || b == 0x2b || b == 0x2e || b == 0x65 || b == 0x45
}

pub(crate) fn id_byte(b: u8) -> (r: bool)
    ensures
        r == is_id_byte(b),
{
    0x20 <= b && b <= 0x7e && b != 0x22 && b != 0x5c
}

fn digit(b: u8) -> (r: bool)
    ensures
        r == is_digit(b),
{
    0x30 <= b && b <= 0x39
}

pub(crate) fn num_vec(v: &Vec<u8>) -> (r: bool)
    ensures
        r == is_num(v@),
{
    let n = v.len();
    let mut i: usize = 0;
    if n > 0 && v[0] == 0x2d {
        i = 1;
    }
    let d0 = i;
    while i < n && digit(v[i])
        invariant
            d0 <= i <= n,
            n == v@.len(),
            forall|k: int| d0 <= k < i ==> is_digit(#[trigger] v@[k]),
        decreases n - i,
    {
        i += 1;
    }
    proof {
        lemma_digit_run_unique(v@, d0 as int, i as int);
    }
    if i == d0 {
        return false;
    }
    if v[d0] == 0x30 && i > d0 + 1 {
        return false;
    }
    if i < n && v[i] == 0x2e {
        let f0 = i + 1;
        let mut j = f0;
        while j < n && digit(v[j])
            invariant
                f0 <= j <= n,
                n == v@.len(),
                forall|k: int| f0 <= k < j ==> is_digit(#[trigger] v@[k]),
            decreases n - j,
        {
            j += 1;
        }
        proof {
            lemma_digit_run_unique(v@, f0 as int, j as int);
        }
        if j == f0 {
            return false;
        }
        i = j;
    }
    if i < n && (v[i] == 0x65 || v[i] == 0x45) {
        let mut e0 = i + 1;
        if e0 < n && (v[e0] == 0x2b || v[e0] == 0x2d) {
            e0 += 1;
        }
        let mut j = e0;
        while j < n && digit(v[j])
            invariant
                e0 <= j <= n,
                n == v@.len(),
                forall|k: int| e0 <= k < j ==> is_digit(#[trigger] v@[k]),
            decreases n - j,
        {
            j += 1;
        }
        proof {
            lemma_digit_run_unique(v@, e0 as int, j as int);
        }
        if j == e0 {
            return false;
        }
        i = j;
    }
    i == n
}

fn id_vec(v: &Vec<u8>) -> (r: bool)
    ensures
        r == is_id(v@),
{
    let mut i: usize = 0;
    while i < v.len()
        invariant
            i <= v@.len(),
            forall|j: int| 0 <= j < i ==> is_id_byte(#[trigger] v@[j]),
        decreases v@.len() - i,
    {
        if !id_byte(v[i]) {
            return false;
        }
        i += 1;
    }
    true
}

impl Vector3 {
    /// Checks that each component is a non-empty number literal.
    pub fn well_formed(&self) -> (r: bool)
        ensures
            r == self@.wf(),
    {
        num_vec(&self.x) && num_vec(&self.y) && num_vec(&self.z)
    }
}

impl UpdateRecord {
    /// Checks that the record has a canonical wire form: see
    /// [`UpdateRecordView::wf`].
    pub fn well_formed(&self) -> (r: bool)
        ensures
            r == self@.wf(),
    {
        if !id_vec(&self.id) {
            return false;
        }
        match &self.rotation {
            Some(v) => {
                if !v.well_formed() {
                    return false;
                }
            },
            None => {},
        }
        match &self.position {
            Some(v) => {
                if !v.well_formed() {
                    return false;
                }
            },
            None => {},
        }
        true
    }
}

/// Byte-for-byte equality of two byte strings.
pub(crate) fn bytes_eq(a: &Vec<u8>, b: &Vec<u8>) -> (r: bool)
    ensures
        r <==> a@ == b@,
{
    let r = a == b;
    proof {
        if r {
            assert(a@ =~= b@);
        } else {
            if a@ == b@ {
                assert(a.eq_spec(b));
            }
        }
    }
    r
}

} // verus!
