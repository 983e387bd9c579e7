//! The Update Decoder: one complete wire record, parsed and typed.
//!
//! A record is a braced object of `key: value` members. Three top-level keys
//! matter: `resource` (a non-empty string), `severity` (a number, clamped to
//! the severity range) and `payload` (a flat object of scalar fields, or
//! `null`); unknown members are read past and ignored. A record that breaks
//! the grammar, exceeds the size bound, or lacks a required field is a decode
//! error: the record is dropped and the stream goes on.

use crate::scan::{
    is_digit, lemma_number_range, lemma_skip_ws_range, lemma_string_body_range, parse_number,
    parse_string_body, skip_ws, sp_parse_number, sp_parse_string_body, sp_skip_ws,
};
use vstd::prelude::*;
use vstd::string::StringSliceAdditionalSpecFns;

verus! {

/// A scalar member value: string, number (in thousandths), boolean or null.
pub enum FieldVal {
    S(Vec<u8>),
    N(i64),
    B(bool),
    Null,
}

/// The mathematical value of a [`FieldVal`].
pub enum FieldValV {
    S(Seq<u8>),
    N(int),
    B(bool),
    Null,
}

impl View for FieldVal {
    type V = FieldValV;

    open spec fn view(&self) -> FieldValV {
        match self {
            FieldVal::S(v) => FieldValV::S(v@),
            FieldVal::N(n) => FieldValV::N(*n as int),
            FieldVal::B(b) => FieldValV::B(*b),
            FieldVal::Null => FieldValV::Null,
        }
    }
}

/// One field of a payload object.
pub struct PayloadField {
    pub key: Vec<u8>,
    pub val: FieldVal,
}

/// The mathematical value of a [`PayloadField`].
pub struct PayloadFieldV {
    pub key: Seq<u8>,
    pub val: FieldValV,
}

impl View for PayloadField {
    type V = PayloadFieldV;

    open spec fn view(&self) -> PayloadFieldV {
        PayloadFieldV { key: self.key@, val: self.val@ }
    }
}

/// The mathematical values of a run of payload fields.
pub open spec fn fields_view(v: Seq<PayloadField>) -> Seq<PayloadFieldV> {
    v.map_values(|f: PayloadField| f@)
}

/// Whether the keyword `null` stands at `i`.
pub open spec fn sp_match_null(s: Seq<u8>, i: int) -> bool {
    i + 4 <= s.len() && s[i] == 0x6e && s[i + 1] == 0x75 && s[i + 2] == 0x6c && s[i + 3] == 0x6c
}

/// Whether the keyword `true` stands at `i`.
pub open spec fn sp_match_true(s: Seq<u8>, i: int) -> bool {
    i + 4 <= s.len() && s[i] == 0x74 && s[i + 1] == 0x72 && s[i + 2] == 0x75 && s[i + 3] == 0x65
}

/// Whether the keyword `false` stands at `i`.
pub open spec fn sp_match_false(s: Seq<u8>, i: int) -> bool {
    i + 5 <= s.len() && s[i] == 0x66 && s[i + 1] == 0x61 && s[i + 2] == 0x6c && s[i + 3] == 0x73
        && s[i + 4] == 0x65
}

/// The scalar starting at `i`, with the position after it.
pub open spec fn sp_parse_scalar(s: Seq<u8>, i: int) -> Option<(FieldValV, int)> {
    if i >= s.len() {
        None
    } else if s[i] == 0x22 {
        match sp_parse_string_body(s, i + 1) {
            Some(t) => Some((FieldValV::S(t.0), t.1)),
            None => None,
        }
    } else if s[i] == 0x2d || is_digit(s[i]) {
        match sp_parse_number(s, i) {
            Some(t) => Some((FieldValV::N(t.0), t.1)),
            None => None,
        }
    } else if sp_match_null(s, i) {
        Some((FieldValV::Null, i + 4))
    } else if sp_match_true(s, i) {
        Some((FieldValV::B(true), i + 4))
    } else if sp_match_false(s, i) {
        Some((FieldValV::B(false), i + 5))
    } else {
        None
    }
}

pub proof fn lemma_scalar_range(s: Seq<u8>, i: int)
    requires
        0 <= i <= s.len(),
        sp_parse_scalar(s, i) is Some,
    ensures
        i < sp_parse_scalar(s, i)->Some_0.1 <= s.len(),
{
    if i >= s.len() {
    } else if s[i] == 0x22 {
        lemma_string_body_range(s, i + 1);
    } else if s[i] == 0x2d || is_digit(s[i]) {
        lemma_number_range(s, i);
    }
}

/// Reads the scalar at `i`, as the grammar defines it.
pub fn parse_scalar(s: &Vec<u8>, i: usize) -> (r: Option<(FieldVal, usize)>)
    requires
        i <= s@.len(),
    ensures
        match r {
            Some(t) => sp_parse_scalar(s@, i as int) == Some((t.0@, t.1 as int)) && i < t.1
                <= s@.len(),
            None => sp_parse_scalar(s@, i as int) is None,
        },
{
    if i >= s.len() {
        return None;
    }
    let b = s[i];
    if b == 0x22 {
        match parse_string_body(s, i + 1) {
            Some(t) => Some((FieldVal::S(t.0), t.1)),
            None => None,
        }
    } else if b == 0x2d || (0x30 <= b && b <= 0x39) {
        match parse_number(s, i) {
            Some(t) => Some((FieldVal::N(t.0), t.1)),
            None => None,
        }
    } else if s.len() - i >= 4 && b == 0x6e && s[i + 1] == 0x75 && s[i + 2] == 0x6c && s[i + 3]
        == 0x6c {
        Some((FieldVal::Null, i + 4))
    } else if s.len() - i >= 4 && b == 0x74 && s[i + 1] == 0x72 && s[i + 2] == 0x75 && s[i + 3]
        == 0x65 {
        Some((FieldVal::B(true), i + 4))
    } else if s.len() - i >= 5 && b == 0x66 && s[i + 1] == 0x61 && s[i + 2] == 0x6c && s[i + 3]
        == 0x73 && s[i + 4] == 0x65 {
        Some((FieldVal::B(false), i + 5))
    } else {
        None
    }
}

/// The members of a flat object from `i` (the start of a key) through the
/// closing brace: each member is a quoted key, a colon and a scalar, and
/// members are comma-separated.
pub open spec fn sp_parse_members(s: Seq<u8>, i: int) -> Option<(Seq<PayloadFieldV>, int)>
    decreases s.len() - i when 0 <= i <= s.len() via sp_parse_members_dec
{
    if i < s.len() && s[i] == 0x22 {
        match sp_parse_string_body(s, i + 1) {
            Some(kt) => {
                let j2 = sp_skip_ws(s, kt.1);
                if j2 < s.len() && s[j2] == 0x3a {
                    let j3 = sp_skip_ws(s, j2 + 1);
                    match sp_parse_scalar(s, j3) {
                        Some(vt) => {
                            let fld = PayloadFieldV { key: kt.0, val: vt.0 };
                            let j5 = sp_skip_ws(s, vt.1);
                            if j5 < s.len() && s[j5] == 0x2c {
                                let j6 = sp_skip_ws(s, j5 + 1);
                                match sp_parse_members(s, j6) {
                                    Some(rt) => Some((seq![fld] + rt.0, rt.1)),
                                    None => None,
                                }
                            } else if j5 < s.len() && s[j5] == 0x7d {
                                Some((seq![fld], j5 + 1))
                            } else {
                                None
                            }
                        },
                        None => None,
                    }
                } else {
                    None
                }
            },
            None => None,
        }
    } else {
        None
    }
}

#[via_fn]
proof fn sp_parse_members_dec(s: Seq<u8>, i: int) {
    if i < s.len() && s[i] == 0x22 {
        if sp_parse_string_body(s, i + 1) is Some {
            lemma_string_body_range(s, i + 1);
            let kt = sp_parse_string_body(s, i + 1)->Some_0;
            lemma_skip_ws_range(s, kt.1);
            let j2 = sp_skip_ws(s, kt.1);
            if j2 < s.len() && s[j2] == 0x3a {
                lemma_skip_ws_range(s, j2 + 1);
                let j3 = sp_skip_ws(s, j2 + 1);
                if sp_parse_scalar(s, j3) is Some {
                    lemma_scalar_range(s, j3);
                    let vt = sp_parse_scalar(s, j3)->Some_0;
                    lemma_skip_ws_range(s, vt.1);
                    let j5 = sp_skip_ws(s, vt.1);
                    if j5 < s.len() && s[j5] == 0x2c {
                        lemma_skip_ws_range(s, j5 + 1);
                    }
                }
            }
        }
    }
}

pub proof fn lemma_members_range(s: Seq<u8>, i: int)
    requires
        0 <= i <= s.len(),
        sp_parse_members(s, i) is Some,
    ensures
        i < sp_parse_members(s, i)->Some_0.1 <= s.len(),
    decreases s.len() - i,
{
    let kt = sp_parse_string_body(s, i + 1)->Some_0;
    lemma_string_body_range(s, i + 1);
    let j2 = sp_skip_ws(s, kt.1);
    lemma_skip_ws_range(s, kt.1);
    let j3 = sp_skip_ws(s, j2 + 1);
    lemma_skip_ws_range(s, j2 + 1);
    let vt = sp_parse_scalar(s, j3)->Some_0;
    lemma_scalar_range(s, j3);
    let j5 = sp_skip_ws(s, vt.1);
    lemma_skip_ws_range(s, vt.1);
    if j5 < s.len() && s[j5] == 0x2c {
        let j6 = sp_skip_ws(s, j5 + 1);
        lemma_skip_ws_range(s, j5 + 1);
        lemma_members_range(s, j6);
    }
}

/// Reads flat-object members from the start of a key.
pub fn parse_members(s: &Vec<u8>, i: usize) -> (r: Option<(Vec<PayloadField>, usize)>)
    requires
        i <= s@.len(),
    ensures
        match r {
            Some(t) => sp_parse_members(s@, i as int) == Some((fields_view(t.0@), t.1 as int)) && i
                < t.1 <= s@.len(),
            None => sp_parse_members(s@, i as int) is None,
        },
{
    let mut acc: Vec<PayloadField> = Vec::new();
    let mut j = i;
    proof {
        assert(fields_view(acc@) =~= Seq::<PayloadFieldV>::empty());
    }
    loop
        invariant
            i <= j <= s@.len(),
            match sp_parse_members(s@, j as int) {
                Some(t) => sp_parse_members(s@, i as int) == Some((fields_view(acc@) + t.0, t.1)),
                None => sp_parse_members(s@, i as int) is None,
            },
        decreases s@.len() - j,
    {
        if j >= s.len() {
            return None;
        }
        if s[j] != 0x22 {
            return None;
        }
        let kt = match parse_string_body(s, j + 1) {
            Some(t) => t,
            None => {
                return None;
            },
        };
        let j2 = skip_ws(s, kt.1);
        if j2 >= s.len() || s[j2] != 0x3a {
            return None;
        }
        let j3 = skip_ws(s, j2 + 1);
        let vt = match parse_scalar(s, j3) {
            Some(t) => t,
            None => {
                return None;
            },
        };
        let j5 = skip_ws(s, vt.1);
        let ghost fldv = PayloadFieldV { key: kt.0@, val: vt.0@ };
        let ghost prev = fields_view(acc@);
        if j5 < s.len() && s[j5] == 0x2c {
            let j6 = skip_ws(s, j5 + 1);
            acc.push(PayloadField { key: kt.0, val: vt.0 });
            proof {
                assert(fields_view(acc@) =~= prev.push(fldv));
                if sp_parse_members(s@, j6 as int) is Some {
                    let rt = sp_parse_members(s@, j6 as int)->Some_0;
                    assert(sp_parse_members(s@, j as int) == Some((seq![fldv] + rt.0, rt.1)));
                    assert(fields_view(acc@) + rt.0 =~= prev + (seq![fldv] + rt.0));
                }
            }
            j = j6;
        } else if j5 < s.len() && s[j5] == 0x7d {
            acc.push(PayloadField { key: kt.0, val: vt.0 });
            proof {
                assert(fields_view(acc@) =~= prev.push(fldv));
                assert(sp_parse_members(s@, j as int) == Some((seq![fldv], j5 + 1)));
                assert(fields_view(acc@) =~= prev + seq![fldv]);
            }
            return Some((acc, j5 + 1));
        } else {
            return None;
        }
    }
}

/// A flat object from its opening brace: empty, or a run of members.
pub open spec fn sp_parse_object(s: Seq<u8>, i: int) -> Option<(Seq<PayloadFieldV>, int)> {
    let j = sp_skip_ws(s, i + 1);
    if j < s.len() && s[j] == 0x7d {
        Some((Seq::empty(), j + 1))
    } else {
        sp_parse_members(s, j)
    }
}

pub proof fn lemma_object_range(s: Seq<u8>, i: int)
    requires
        0 <= i < s.len(),
        sp_parse_object(s, i) is Some,
    ensures
        i < sp_parse_object(s, i)->Some_0.1 <= s.len(),
{
    lemma_skip_ws_range(s, i + 1);
    let j = sp_skip_ws(s, i + 1);
    if j < s.len() && s[j] == 0x7d {
    } else {
        lemma_members_range(s, j);
    }
}

/// Reads a flat object whose opening brace stands at `i`.
pub fn parse_object(s: &Vec<u8>, i: usize) -> (r: Option<(Vec<PayloadField>, usize)>)
    requires
        i < s@.len(),
    ensures
        match r {
            Some(t) => sp_parse_object(s@, i as int) == Some((fields_view(t.0@), t.1 as int)) && i
                < t.1 <= s@.len(),
            None => sp_parse_object(s@, i as int) is None,
        },
{
    let n = s.len();
    assert(i < n);
    let j = skip_ws(s, i + 1);
    if j < n && s[j] == 0x7d {
        let empty: Vec<PayloadField> = Vec::new();
        proof {
            assert(fields_view(empty@) =~= Seq::<PayloadFieldV>::empty());
        }
        Some((empty, j + 1))
    } else {
        parse_members(s, j)
    }
}

/// A top-level member value: a scalar, or a flat object.
pub enum TopVal {
    Scalar(FieldVal),
    Obj(Vec<PayloadField>),
}

/// The mathematical value of a [`TopVal`].
pub enum TopValV {
    Scalar(FieldValV),
    Obj(Seq<PayloadFieldV>),
}

impl View for TopVal {
    type V = TopValV;

    open spec fn view(&self) -> TopValV {
        match self {
            TopVal::Scalar(v) => TopValV::Scalar(v@),
            TopVal::Obj(v) => TopValV::Obj(fields_view(v@)),
        }
    }
}

/// One top-level member of a record.
pub struct TopPair {
    pub key: Vec<u8>,
    pub val: TopVal,
}

/// The mathematical value of a [`TopPair`].
pub struct TopPairV {
    pub key: Seq<u8>,
    pub val: TopValV,
}

impl View for TopPair {
    type V = TopPairV;

    open spec fn view(&self) -> TopPairV {
        TopPairV { key: self.key@, val: self.val@ }
    }
}

/// The mathematical values of a run of top-level members.
pub open spec fn pairs_view(v: Seq<TopPair>) -> Seq<TopPairV> {
    v.map_values(|p: TopPair| p@)
}

/// The top-level value at `i`: a flat object if a brace opens one, else a
/// scalar.
pub open spec fn sp_parse_top_value(s: Seq<u8>, i: int) -> Option<(TopValV, int)> {
    if i < s.len() && s[i] == 0x7b {
        match sp_parse_object(s, i) {
            Some(t) => Some((TopValV::Obj(t.0), t.1)),
            None => None,
        }
    } else {
        match sp_parse_scalar(s, i) {
            Some(t) => Some((TopValV::Scalar(t.0), t.1)),
            None => None,
        }
    }
}

pub proof fn lemma_top_value_range(s: Seq<u8>, i: int)
    requires
        0 <= i <= s.len(),
        sp_parse_top_value(s, i) is Some,
    ensures
        i < sp_parse_top_value(s, i)->Some_0.1 <= s.len(),
{
    if i < s.len() && s[i] == 0x7b {
        lemma_object_range(s, i);
    } else {
        lemma_scalar_range(s, i);
    }
}

/// Reads the top-level value at `i`.
pub fn parse_top_value(s: &Vec<u8>, i: usize) -> (r: Option<(TopVal, usize)>)
    requires
        i <= s@.len(),
    ensures
        match r {
            Some(t) => sp_parse_top_value(s@, i as int) == Some((t.0@, t.1 as int)) && i < t.1
                <= s@.len(),
            None => sp_parse_top_value(s@, i as int) is None,
        },
{
    if i < s.len() && s[i] == 0x7b {
        match parse_object(s, i) {
            Some(t) => Some((TopVal::Obj(t.0), t.1)),
            None => None,
        }
    } else {
        match parse_scalar(s, i) {
            Some(t) => Some((TopVal::Scalar(t.0), t.1)),
            None => None,
        }
    }
}

/// The top-level members of a record from `i` (the start of a key) through
/// the record's closing brace.
pub open spec fn sp_parse_top_members(s: Seq<u8>, i: int) -> Option<(Seq<TopPairV>, int)>
    decreases s.len() - i when 0 <= i <= s.len() via sp_parse_top_members_dec
{
    if i < s.len() && s[i] == 0x22 {
        match sp_parse_string_body(s, i + 1) {
            Some(kt) => {
                let j2 = sp_skip_ws(s, kt.1);
                if j2 < s.len() && s[j2] == 0x3a {
                    let j3 = sp_skip_ws(s, j2 + 1);
                    match sp_parse_top_value(s, j3) {
                        Some(vt) => {
                            let pair = TopPairV { key: kt.0, val: vt.0 };
                            let j5 = sp_skip_ws(s, vt.1);
                            if j5 < s.len() && s[j5] == 0x2c {
                                let j6 = sp_skip_ws(s, j5 + 1);
                                match sp_parse_top_members(s, j6) {
                                    Some(rt) => Some((seq![pair] + rt.0, rt.1)),
                                    None => None,
                                }
                            } else if j5 < s.len() && s[j5] == 0x7d {
                                Some((seq![pair], j5 + 1))
                            } else {
                                None
                            }
                        },
                        None => None,
                    }
                } else {
                    None
                }
            },
            None => None,
        }
    } else {
        None
    }
}

#[via_fn]
proof fn sp_parse_top_members_dec(s: Seq<u8>, i: int) {
    if i < s.len() && s[i] == 0x22 {
        if sp_parse_string_body(s, i + 1) is Some {
            lemma_string_body_range(s, i + 1);
            let kt = sp_parse_string_body(s, i + 1)->Some_0;
            lemma_skip_ws_range(s, kt.1);
            let j2 = sp_skip_ws(s, kt.1);
            if j2 < s.len() && s[j2] == 0x3a {
                lemma_skip_ws_range(s, j2 + 1);
                let j3 = sp_skip_ws(s, j2 + 1);
                if sp_parse_top_value(s, j3) is Some {
                    lemma_top_value_range(s, j3);
                    let vt = sp_parse_top_value(s, j3)->Some_0;
                    lemma_skip_ws_range(s, vt.1);
                    let j5 = sp_skip_ws(s, vt.1);
                    if j5 < s.len() && s[j5] == 0x2c {
                        lemma_skip_ws_range(s, j5 + 1);
                    }
                }
            }
        }
    }
}

/// Reads top-level members from the start of a key.
pub fn parse_top_members(s: &Vec<u8>, i: usize) -> (r: Option<(Vec<TopPair>, usize)>)
    requires
        i <= s@.len(),
    ensures
        match r {
            Some(t) => sp_parse_top_members(s@, i as int) == Some((pairs_view(t.0@), t.1 as int))
                && i < t.1 <= s@.len(),
            None => sp_parse_top_members(s@, i as int) is None,
        },
{
    let mut acc: Vec<TopPair> = Vec::new();
    let mut j = i;
    proof {
        assert(pairs_view(acc@) =~= Seq::<TopPairV>::empty());
    }
    loop
        invariant
            i <= j <= s@.len(),
            match sp_parse_top_members(s@, j as int) {
                Some(t) => sp_parse_top_members(s@, i as int) == Some(
                    (pairs_view(acc@) + t.0, t.1),
                ),
                None => sp_parse_top_members(s@, i as int) is None,
            },
        decreases s@.len() - j,
    {
        if j >= s.len() {
            return None;
        }
        if s[j] != 0x22 {
            return None;
        }
        let kt = match parse_string_body(s, j + 1) {
            Some(t) => t,
            None => {
                return None;
            },
        };
        let j2 = skip_ws(s, kt.1);
        if j2 >= s.len() || s[j2] != 0x3a {
            return None;
        }
        let j3 = skip_ws(s, j2 + 1);
        let vt = match parse_top_value(s, j3) {
            Some(t) => t,
            None => {
                return None;
            },
        };
        let j5 = skip_ws(s, vt.1);
        let ghost pairv = TopPairV { key: kt.0@, val: vt.0@ };
        let ghost prev = pairs_view(acc@);
        if j5 < s.len() && s[j5] == 0x2c {
            let j6 = skip_ws(s, j5 + 1);
            acc.push(TopPair { key: kt.0, val: vt.0 });
            proof {
                assert(pairs_view(acc@) =~= prev.push(pairv));
                if sp_parse_top_members(s@, j6 as int) is Some {
                    let rt = sp_parse_top_members(s@, j6 as int)->Some_0;
                    assert(sp_parse_top_members(s@, j as int) == Some((seq![pairv] + rt.0, rt.1)));
                    assert(pairs_view(acc@) + rt.0 =~= prev + (seq![pairv] + rt.0));
                }
            }
            j = j6;
        } else if j5 < s.len() && s[j5] == 0x7d {
            acc.push(TopPair { key: kt.0, val: vt.0 });
            proof {
                assert(pairs_view(acc@) =~= prev.push(pairv));
                assert(sp_parse_top_members(s@, j as int) == Some((seq![pairv], j5 + 1)));
                assert(pairs_view(acc@) =~= prev + seq![pairv]);
            }
            return Some((acc, j5 + 1));
        } else {
            return None;
        }
    }
}

/// The top-level members of one whole record: optional whitespace, a braced
/// member list, optional whitespace, and nothing else.
pub open spec fn sp_parse_record(s: Seq<u8>) -> Option<Seq<TopPairV>> {
    let i0 = sp_skip_ws(s, 0);
    if i0 < s.len() && s[i0] == 0x7b {
        let i1 = sp_skip_ws(s, i0 + 1);
        if i1 < s.len() && s[i1] == 0x7d {
            if sp_skip_ws(s, i1 + 1) == s.len() {
                Some(Seq::empty())
            } else {
                None
            }
        } else {
            match sp_parse_top_members(s, i1) {
                Some(t) => if sp_skip_ws(s, t.1) == s.len() {
                    Some(t.0)
                } else {
                    None
                },
                None => None,
            }
        }
    } else {
        None
    }
}

/// Reads one whole record into its top-level members.
pub fn parse_record(s: &Vec<u8>) -> (r: Option<Vec<TopPair>>)
    ensures
        match r {
            Some(ps) => sp_parse_record(s@) == Some(pairs_view(ps@)),
            None => sp_parse_record(s@) is None,
        },
{
    let i0 = skip_ws(s, 0);
    if !(i0 < s.len() && s[i0] == 0x7b) {
        return None;
    }
    let i1 = skip_ws(s, i0 + 1);
    if i1 < s.len() && s[i1] == 0x7d {
        if skip_ws(s, i1 + 1) == s.len() {
            let empty: Vec<TopPair> = Vec::new();
            proof {
                assert(pairs_view(empty@) =~= Seq::<TopPairV>::empty());
            }
            return Some(empty);
        } else {
            return None;
        }
    }
    match parse_top_members(s, i1) {
        Some(t) => {
            if skip_ws(s, t.1) == s.len() {
                Some(t.0)
            } else {
                None
            }
        },
        None => None,
    }
}

/// The resource kind names the decoder and renderer know.
pub open spec fn kind_loadavg() -> Seq<u8> {
    "loadavg".spec_bytes()
}

pub open spec fn kind_ram() -> Seq<u8> {
    "ram".spec_bytes()
}

pub open spec fn kind_disk() -> Seq<u8> {
    "disk".spec_bytes()
}

pub open spec fn kind_network() -> Seq<u8> {
    "network".spec_bytes()
}

pub open spec fn kind_temperature() -> Seq<u8> {
    "temperature".spec_bytes()
}

pub open spec fn kind_volume() -> Seq<u8> {
    "volume".spec_bytes()
}

pub open spec fn kind_battery() -> Seq<u8> {
    "battery".spec_bytes()
}

pub open spec fn kind_weather() -> Seq<u8> {
    "weather".spec_bytes()
}

pub open spec fn kind_display() -> Seq<u8> {
    "display".spec_bytes()
}

/// The special resource key whose saturated severity signals that the
/// telemetry producer is unreachable.
pub open spec fn kind_producer() -> Seq<u8> {
    "producer-identity".spec_bytes()
}

/// The first member under `key`, if any.
pub open spec fn sp_find_pair(ps: Seq<TopPairV>, key: Seq<u8>) -> Option<TopValV>
    decreases ps.len(),
{
    if ps.len() == 0 {
        None
    } else if ps[0].key == key {
        Some(ps[0].val)
    } else {
        sp_find_pair(ps.drop_first(), key)
    }
}

/// The first payload field under `key`, if any.
pub open spec fn sp_find_field(fs: Seq<PayloadFieldV>, key: Seq<u8>) -> Option<FieldValV>
    decreases fs.len(),
{
    if fs.len() == 0 {
        None
    } else if fs[0].key == key {
        Some(fs[0].val)
    } else {
        sp_find_field(fs.drop_first(), key)
    }
}

fn find_pair(ps: &Vec<TopPair>, key: &Vec<u8>) -> (r: Option<usize>)
    ensures
        match r {
            Some(ix) => ix < ps@.len() && sp_find_pair(pairs_view(ps@), key@) == Some(
                ps@[ix as int]@.val,
            ),
            None => sp_find_pair(pairs_view(ps@), key@) is None,
        },
{
    let mut i: usize = 0;
    proof {
        assert(pairs_view(ps@).skip(0) =~= pairs_view(ps@));
    }
    while i < ps.len()
        invariant
            i <= ps@.len(),
            sp_find_pair(pairs_view(ps@), key@) == sp_find_pair(
                pairs_view(ps@).skip(i as int),
                key@,
            ),
        decreases ps@.len() - i,
    {
        proof {
            assert(pairs_view(ps@).skip(i as int).drop_first() =~= pairs_view(ps@).skip(i + 1));
            assert(pairs_view(ps@).skip(i as int)[0] == pairs_view(ps@)[i as int]);
        }
        if crate::bytes::bytes_eq(&ps[i].key, key) {
            return Some(i);
        }
        i += 1;
    }
    None
}

fn find_field(fs: &Vec<PayloadField>, key: &Vec<u8>) -> (r: Option<usize>)
    ensures
        match r {
            Some(ix) => ix < fs@.len() && sp_find_field(fields_view(fs@), key@) == Some(
                fs@[ix as int]@.val,
            ),
            None => sp_find_field(fields_view(fs@), key@) is None,
        },
{
    let mut i: usize = 0;
    proof {
        assert(fields_view(fs@).skip(0) =~= fields_view(fs@));
    }
    while i < fs.len()
        invariant
            i <= fs@.len(),
            sp_find_field(fields_view(fs@), key@) == sp_find_field(
                fields_view(fs@).skip(i as int),
                key@,
            ),
        decreases fs@.len() - i,
    {
        proof {
            assert(fields_view(fs@).skip(i as int).drop_first() =~= fields_view(fs@).skip(i + 1));
            assert(fields_view(fs@).skip(i as int)[0] == fields_view(fs@)[i as int]);
        }
        if crate::bytes::bytes_eq(&fs[i].key, key) {
            return Some(i);
        }
        i += 1;
    }
    None
}

/// A severity pushed back into the severity range.
pub open spec fn severity_clamped(v: int) -> int {
    if v < 0 {
        0
    } else if v > crate::color::SEVERITY_SCALE as int {
        crate::color::SEVERITY_SCALE as int
    } else {
        v
    }
}

/// The raw triple of a record's members: its non-empty resource name, its
/// clamped severity, and its payload fields (none when the payload member is
/// `null` or missing). A record without a string resource or a numeric
/// severity, or whose payload is neither an object nor `null`, carries no
/// triple.
pub open spec fn sp_extract(ps: Seq<TopPairV>) -> Option<(Seq<u8>, int, Option<Seq<PayloadFieldV>>)> {
    match sp_find_pair(ps, "resource".spec_bytes()) {
        Some(TopValV::Scalar(FieldValV::S(res))) => if res.len() == 0 {
            None
        } else {
            match sp_find_pair(ps, "severity".spec_bytes()) {
                Some(TopValV::Scalar(FieldValV::N(sev))) => {
                    match sp_find_pair(ps, "payload".spec_bytes()) {
                        None => Some((res, severity_clamped(sev), None)),
                        Some(TopValV::Scalar(FieldValV::Null)) => Some(
                            (res, severity_clamped(sev), None),
                        ),
                        Some(TopValV::Obj(fields)) => Some(
                            (res, severity_clamped(sev), Some(fields)),
                        ),
                        Some(_) => None,
                    }
                },
                _ => None,
            }
        },
        _ => None,
    }
}

/// A typed update payload, one variant per known resource kind plus a
/// generic fallback for unknown kinds.
#[derive(Debug, Clone, PartialEq, Eq)]
pub enum Payload {
    Loadavg { m1: i64, m5: i64, m15: i64 },
    Ram { mem_percent: i64, swap_percent: i64 },
    Disk { used_percent: i64 },
    NetworkEthernet,
    NetworkWlan { signal: i64, ip: Vec<u8>, ssid: Vec<u8> },
    Temperature { value: i64 },
    Volume { value: i64 },
    Battery { percentage: i64, state: Vec<u8>, eta: i64 },
    Weather { icon: Vec<u8>, text: Vec<u8> },
    Display,
    ProducerStatus,
    Generic,
}

/// The mathematical value of a [`Payload`].
pub enum PayloadV {
    Loadavg { m1: int, m5: int, m15: int },
    Ram { mem_percent: int, swap_percent: int },
    Disk { used_percent: int },
    NetworkEthernet,
    NetworkWlan { signal: int, ip: Seq<u8>, ssid: Seq<u8> },
    Temperature { value: int },
    Volume { value: int },
    Battery { percentage: int, state: Seq<u8>, eta: int },
    Weather { icon: Seq<u8>, text: Seq<u8> },
    Display,
    ProducerStatus,
    Generic,
}

impl View for Payload {
    type V = PayloadV;

    open spec fn view(&self) -> PayloadV {
        match self {
            Payload::Loadavg { m1, m5, m15 } => PayloadV::Loadavg {
                m1: *m1 as int,
                m5: *m5 as int,
                m15: *m15 as int,
            },
            Payload::Ram { mem_percent, swap_percent } => PayloadV::Ram {
                mem_percent: *mem_percent as int,
                swap_percent: *swap_percent as int,
            },
            Payload::Disk { used_percent } => PayloadV::Disk { used_percent: *used_percent as int },
            Payload::NetworkEthernet => PayloadV::NetworkEthernet,
            Payload::NetworkWlan { signal, ip, ssid } => PayloadV::NetworkWlan {
                signal: *signal as int,
                ip: ip@,
                ssid: ssid@,
            },
            Payload::Temperature { value } => PayloadV::Temperature { value: *value as int },
            Payload::Volume { value } => PayloadV::Volume { value: *value as int },
            Payload::Battery { percentage, state, eta } => PayloadV::Battery {
                percentage: *percentage as int,
                state: state@,
                eta: *eta as int,
            },
            Payload::Weather { icon, text } => PayloadV::Weather { icon: icon@, text: text@ },
            Payload::Display => PayloadV::Display,
            Payload::ProducerStatus => PayloadV::ProducerStatus,
            Payload::Generic => PayloadV::Generic,
        }
    }
}

/// One decoded resource update.
#[derive(Debug, Clone, PartialEq, Eq)]
pub struct ResourceUpdate {
    pub resource: Vec<u8>,
    pub severity: u32,
    pub payload: Option<Payload>,
}

/// The mathematical value of a [`ResourceUpdate`].
pub struct UpdateV {
    pub resource: Seq<u8>,
    pub severity: int,
    pub payload: Option<PayloadV>,
}

impl View for ResourceUpdate {
    type V = UpdateV;

    open spec fn view(&self) -> UpdateV {
        UpdateV {
            resource: self.resource@,
            severity: self.severity as int,
            payload: match &self.payload {
                Some(p) => Some(p@),
                None => None,
            },
        }
    }
}

/// The typed payload a known kind reads out of its fields; a missing or
/// mistyped required field yields nothing, and unknown kinds type generically.
pub open spec fn sp_typed_payload(res: Seq<u8>, fields: Seq<PayloadFieldV>) -> Option<PayloadV> {
    if res == kind_loadavg() {
        match (
            sp_find_field(fields, "m1".spec_bytes()),
            sp_find_field(fields, "m5".spec_bytes()),
            sp_find_field(fields, "m15".spec_bytes()),
        ) {
            (Some(FieldValV::N(a)), Some(FieldValV::N(b)), Some(FieldValV::N(c))) => Some(
                PayloadV::Loadavg { m1: a, m5: b, m15: c },
            ),
            _ => None,
        }
    } else if res == kind_ram() {
        match (
            sp_find_field(fields, "mem_percent".spec_bytes()),
            sp_find_field(fields, "swap_percent".spec_bytes()),
        ) {
            (Some(FieldValV::N(a)), Some(FieldValV::N(b))) => Some(
                PayloadV::Ram { mem_percent: a, swap_percent: b },
            ),
            _ => None,
        }
    } else if res == kind_disk() {
        match sp_find_field(fields, "used_percent".spec_bytes()) {
            Some(FieldValV::N(a)) => Some(PayloadV::Disk { used_percent: a }),
            _ => None,
        }
    } else if res == kind_network() {
        match sp_find_field(fields, "conn_type".spec_bytes()) {
            Some(FieldValV::S(ct)) => if ct == "ethernet".spec_bytes() {
                Some(PayloadV::NetworkEthernet)
            } else {
                match (
                    sp_find_field(fields, "signal".spec_bytes()),
                    sp_find_field(fields, "ip".spec_bytes()),
                    sp_find_field(fields, "ssid".spec_bytes()),
                ) {
                    (Some(FieldValV::N(sg)), Some(FieldValV::S(ip)), Some(FieldValV::S(sd))) =>
                        Some(PayloadV::NetworkWlan { signal: sg, ip: ip, ssid: sd }),
                    _ => None,
                }
            },
            _ => None,
        }
    } else if res == kind_temperature() {
        match sp_find_field(fields, "value".spec_bytes()) {
            Some(FieldValV::N(a)) => Some(PayloadV::Temperature { value: a }),
            _ => None,
        }
    } else if res == kind_volume() {
        match sp_find_field(fields, "value".spec_bytes()) {
            Some(FieldValV::N(a)) => Some(PayloadV::Volume { value: a }),
            _ => None,
        }
    } else if res == kind_battery() {
        match (
            sp_find_field(fields, "percentage".spec_bytes()),
            sp_find_field(fields, "state".spec_bytes()),
            sp_find_field(fields, "eta".spec_bytes()),
        ) {
            (Some(FieldValV::N(p)), Some(FieldValV::S(st)), Some(FieldValV::N(e))) => Some(
                PayloadV::Battery { percentage: p, state: st, eta: e },
            ),
            _ => None,
        }
    } else if res == kind_weather() {
        match (
            sp_find_field(fields, "icon".spec_bytes()),
            sp_find_field(fields, "text".spec_bytes()),
        ) {
            (Some(FieldValV::S(ic)), Some(FieldValV::S(tx))) => Some(
                PayloadV::Weather { icon: ic, text: tx },
            ),
            _ => None,
        }
    } else if res == kind_display() {
        Some(PayloadV::Display)
    } else if res == kind_producer() {
        Some(PayloadV::ProducerStatus)
    } else {
        Some(PayloadV::Generic)
    }
}

/// The update a whole record stands for: grammar, extraction and typing in
/// one function of the record's bytes.
#[verifier::opaque]
pub open spec fn wire_update(s: Seq<u8>) -> Option<UpdateV> {
    match sp_parse_record(s) {
        Some(ps) => match sp_extract(ps) {
            Some(t) => match t.2 {
                Some(fields) => match sp_typed_payload(t.0, fields) {
                    Some(p) => Some(
                        UpdateV { resource: t.0, severity: t.1, payload: Some(p) },
                    ),
                    None => None,
                },
                None => Some(UpdateV { resource: t.0, severity: t.1, payload: None }),
            },
            None => None,
        },
        None => None,
    }
}

/// Why a record was dropped: it overran the size bound, or it broke the
/// grammar, lacked a required member, or mistyped one.
#[derive(Clone, Copy, PartialEq, Eq, Structural, Debug)]
pub enum DecodeError {
    Oversized,
    Malformed,
}

/// The size sanity bound on one record.
pub const MAX_RECORD: usize = 8192;

fn typed_payload(res: &Vec<u8>, fields: &Vec<PayloadField>) -> (r: Option<Payload>)
    ensures
        match r {
            Some(p) => sp_typed_payload(res@, fields_view(fields@)) == Some(p@),
            None => sp_typed_payload(res@, fields_view(fields@)) is None,
        },
{
    if crate::bytes::bytes_eq(res, &crate::bytes::str_bytes("loadavg")) {
        let a = find_field(fields, &crate::bytes::str_bytes("m1"));
        let b = find_field(fields, &crate::bytes::str_bytes("m5"));
        let c = find_field(fields, &crate::bytes::str_bytes("m15"));
        match (a, b, c) {
            (Some(ia), Some(ib), Some(ic)) => match (&fields[ia].val, &fields[ib].val, &fields[ic].val) {
                (FieldVal::N(m1), FieldVal::N(m5), FieldVal::N(m15)) => Some(
                    Payload::Loadavg { m1: *m1, m5: *m5, m15: *m15 },
                ),
                _ => None,
            },
            _ => None,
        }
    } else if crate::bytes::bytes_eq(res, &crate::bytes::str_bytes("ram")) {
        let a = find_field(fields, &crate::bytes::str_bytes("mem_percent"));
        let b = find_field(fields, &crate::bytes::str_bytes("swap_percent"));
        match (a, b) {
            (Some(ia), Some(ib)) => match (&fields[ia].val, &fields[ib].val) {
                (FieldVal::N(m), FieldVal::N(w)) => Some(
                    Payload::Ram { mem_percent: *m, swap_percent: *w },
                ),
                _ => None,
            },
            _ => None,
        }
    } else if crate::bytes::bytes_eq(res, &crate::bytes::str_bytes("disk")) {
        match find_field(fields, &crate::bytes::str_bytes("used_percent")) {
            Some(ia) => match &fields[ia].val {
                FieldVal::N(u) => Some(Payload::Disk { used_percent: *u }),
                _ => None,
            },
            _ => None,
        }
    } else if crate::bytes::bytes_eq(res, &crate::bytes::str_bytes("network")) {
        match find_field(fields, &crate::bytes::str_bytes("conn_type")) {
            Some(ia) => match &fields[ia].val {
                FieldVal::S(ct) => {
                    if crate::bytes::bytes_eq(ct, &crate::bytes::str_bytes("ethernet")) {
                        Some(Payload::NetworkEthernet)
                    } else {
                        let sg = find_field(fields, &crate::bytes::str_bytes("signal"));
                        let ipx = find_field(fields, &crate::bytes::str_bytes("ip"));
                        let sd = find_field(fields, &crate::bytes::str_bytes("ssid"));
                        match (sg, ipx, sd) {
                            (Some(isg), Some(iip), Some(isd)) => match (
                                &fields[isg].val,
                                &fields[iip].val,
                                &fields[isd].val,
                            ) {
                                (FieldVal::N(sgv), FieldVal::S(ipv), FieldVal::S(sdv)) => Some(
                                    Payload::NetworkWlan {
                                        signal: *sgv,
                                        ip: crate::bytes::clone_bytes(ipv),
                                        ssid: crate::bytes::clone_bytes(sdv),
                                    },
                                ),
                                _ => None,
                            },
                            _ => None,
                        }
                    }
                },
                _ => None,
            },
            _ => None,
        }
    } else if crate::bytes::bytes_eq(res, &crate::bytes::str_bytes("temperature")) {
        match find_field(fields, &crate::bytes::str_bytes("value")) {
            Some(ia) => match &fields[ia].val {
                FieldVal::N(v) => Some(Payload::Temperature { value: *v }),
                _ => None,
            },
            _ => None,
        }
    } else if crate::bytes::bytes_eq(res, &crate::bytes::str_bytes("volume")) {
        match find_field(fields, &crate::bytes::str_bytes("value")) {
            Some(ia) => match &fields[ia].val {
                FieldVal::N(v) => Some(Payload::Volume { value: *v }),
                _ => None,
            },
            _ => None,
        }
    } else if crate::bytes::bytes_eq(res, &crate::bytes::str_bytes("battery")) {
        let a = find_field(fields, &crate::bytes::str_bytes("percentage"));
        let b = find_field(fields, &crate::bytes::str_bytes("state"));
        let c = find_field(fields, &crate::bytes::str_bytes("eta"));
        match (a, b, c) {
            (Some(ia), Some(ib), Some(ic)) => match (&fields[ia].val, &fields[ib].val, &fields[ic].val) {
                (FieldVal::N(p), FieldVal::S(st), FieldVal::N(e)) => Some(
                    Payload::Battery {
                        percentage: *p,
                        state: crate::bytes::clone_bytes(st),
                        eta: *e,
                    },
                ),
                _ => None,
            },
            _ => None,
        }
    } else if crate::bytes::bytes_eq(res, &crate::bytes::str_bytes("weather")) {
        let a = find_field(fields, &crate::bytes::str_bytes("icon"));
        let b = find_field(fields, &crate::bytes::str_bytes("text"));
        match (a, b) {
            (Some(ia), Some(ib)) => match (&fields[ia].val, &fields[ib].val) {
                (FieldVal::S(ic), FieldVal::S(tx)) => Some(
                    Payload::Weather {
                        icon: crate::bytes::clone_bytes(ic),
                        text: crate::bytes::clone_bytes(tx),
                    },
                ),
                _ => None,
            },
            _ => None,
        }
    } else if crate::bytes::bytes_eq(res, &crate::bytes::str_bytes("display")) {
        Some(Payload::Display)
    } else if crate::bytes::bytes_eq(res, &crate::bytes::str_bytes("producer-identity")) {
        Some(Payload::ProducerStatus)
    } else {
        Some(Payload::Generic)
    }
}

/// Decodes one complete record, or says why it is dropped. A record over the
/// size bound is `Oversized`; one the grammar, extraction or typing refuses
/// is `Malformed`; every other record decodes.
pub fn decode_record(s: &Vec<u8>) -> (r: Result<ResourceUpdate, DecodeError>)
    ensures
        s@.len() > MAX_RECORD ==> r == Err::<ResourceUpdate, DecodeError>(DecodeError::Oversized),
        s@.len() <= MAX_RECORD ==> match wire_update(s@) {
            Some(u) => r is Ok && r->Ok_0@ == u,
            None => r == Err::<ResourceUpdate, DecodeError>(DecodeError::Malformed),
        },
        r is Ok ==> r->Ok_0.severity <= crate::color::SEVERITY_SCALE,
{
    proof {
        reveal(wire_update);
    }
    if s.len() > MAX_RECORD {
        return Err(DecodeError::Oversized);
    }
    let pairs = match parse_record(s) {
        Some(ps) => ps,
        None => {
            return Err(DecodeError::Malformed);
        },
    };
    let rix = match find_pair(&pairs, &crate::bytes::str_bytes("resource")) {
        Some(ix) => ix,
        None => {
            return Err(DecodeError::Malformed);
        },
    };
    let resource = match &pairs[rix].val {
        TopVal::Scalar(FieldVal::S(rv)) => crate::bytes::clone_bytes(rv),
        _ => {
            return Err(DecodeError::Malformed);
        },
    };
    if resource.len() == 0 {
        return Err(DecodeError::Malformed);
    }
    let six = match find_pair(&pairs, &crate::bytes::str_bytes("severity")) {
        Some(ix) => ix,
        None => {
            return Err(DecodeError::Malformed);
        },
    };
    let sev_raw: i64 = match &pairs[six].val {
        TopVal::Scalar(FieldVal::N(v)) => *v,
        _ => {
            return Err(DecodeError::Malformed);
        },
    };
    let severity: u32 = if sev_raw < 0 {
        0
    } else if sev_raw > 1000 {
        1000
    } else {
        sev_raw as u32
    };
    match find_pair(&pairs, &crate::bytes::str_bytes("payload")) {
        None => Ok(ResourceUpdate { resource, severity, payload: None }),
        Some(pix) => match &pairs[pix].val {
            TopVal::Scalar(FieldVal::Null) => Ok(
                ResourceUpdate { resource, severity, payload: None },
            ),
            TopVal::Obj(fields) => match typed_payload(&resource, fields) {
                Some(p) => Ok(ResourceUpdate { resource, severity, payload: Some(p) }),
                None => Err(DecodeError::Malformed),
            },
            _ => Err(DecodeError::Malformed),
        },
    }
}

} // verus!
