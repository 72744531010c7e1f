//! Canonical textual representation of a structure.
//!
//! The text form is fully length-directed, so that parsing is
//! unambiguous: every number is sixteen fixed hexadecimal digits, a
//! string is its length followed by its characters, a value is a
//! one-character type tag followed by its payload, and the whole text
//! is the structure's name, the field count, and the fields in
//! storage order. Parsing the text of any structure built by this
//! core yields an equal structure (`lemma_round_trip`).

use vstd::prelude::*;
use vstd::string::*;
use vstd::arithmetic::div_mod::lemma_fundamental_div_mod;

use crate::fields::{set_field, set_fields, unique_names, FieldModel, FieldsModel};
use crate::owned::OwnedStructure;
use crate::structure::{Structure, StructureModel};
use crate::value::{Value, ValueModel};

verus! {

/// The hexadecimal digit characters, lower case.
pub open spec fn hex_char(d: int) -> char {
    if d == 0 { '0' } else if d == 1 { '1' } else if d == 2 { '2' } else if d == 3 { '3' }
    else if d == 4 { '4' } else if d == 5 { '5' } else if d == 6 { '6' } else if d == 7 { '7' }
    else if d == 8 { '8' } else if d == 9 { '9' } else if d == 10 { 'a' } else if d == 11 { 'b' }
    else if d == 12 { 'c' } else if d == 13 { 'd' } else if d == 14 { 'e' } else { 'f' }
}

/// The value of a hexadecimal digit character, or -1 for any other
/// character.
pub open spec fn hex_val(c: char) -> int {
    if c == '0' { 0 } else if c == '1' { 1 } else if c == '2' { 2 } else if c == '3' { 3 }
    else if c == '4' { 4 } else if c == '5' { 5 } else if c == '6' { 6 } else if c == '7' { 7 }
    else if c == '8' { 8 } else if c == '9' { 9 } else if c == 'a' { 10 } else if c == 'b' { 11 }
    else if c == 'c' { 12 } else if c == 'd' { 13 } else if c == 'e' { 14 } else if c == 'f' { 15 }
    else { -1 }
}

/// Sixteen to the given power.
pub open spec fn pow16(w: nat) -> int
    decreases w,
{
    if w == 0 {
        1
    } else {
        16 * pow16((w - 1) as nat)
    }
}

/// The number written with the given count of hexadecimal digits,
/// most significant first.
pub open spec fn hex_digits(n: int, w: nat) -> Seq<char>
    decreases w,
{
    if w == 0 {
        Seq::empty()
    } else {
        hex_digits(n / 16, (w - 1) as nat).push(hex_char(n % 16))
    }
}

/// Whether every character is a hexadecimal digit.
pub open spec fn all_hex(s: Seq<char>) -> bool {
    forall|i: int| 0 <= i < s.len() ==> hex_val(s[i]) >= 0
}

/// The number a sequence of hexadecimal digits denotes.
pub open spec fn hex_value(s: Seq<char>) -> int
    decreases s.len(),
{
    if s.len() == 0 {
        0
    } else {
        hex_value(s.drop_last()) * 16 + hex_val(s.last())
    }
}

/// Encoding of a number: sixteen hexadecimal digits.
pub open spec fn enc_num(n: int) -> Seq<char> {
    hex_digits(n, 16)
}

/// Encoding of a string: its length, then its characters.
pub open spec fn enc_str(s: Seq<char>) -> Seq<char> {
    enc_num(s.len() as int) + s
}

/// Encoding of a value: a type tag, then the payload. A signed
/// number is stored with its sign bit offset so that the payload is
/// never negative.
pub open spec fn enc_value(v: ValueModel) -> Seq<char> {
    match v {
        ValueModel::I32(i) => seq!['i'] + enc_num(i + 0x8000_0000),
        ValueModel::U32(u) => seq!['u'] + enc_num(u as int),
        ValueModel::Bool(b) => seq!['b'] + (if b { seq!['t'] } else { seq!['f'] }),
        ValueModel::Str(s) => seq!['s'] + enc_str(s),
    }
}

/// Encoding of one field: its name, then its value.
pub open spec fn enc_field(f: FieldModel) -> Seq<char> {
    enc_str(f.0) + enc_value(f.1)
}

/// Encoding of the fields, in storage order.
pub open spec fn enc_fields(fields: FieldsModel) -> Seq<char>
    decreases fields.len(),
{
    if fields.len() == 0 {
        Seq::empty()
    } else {
        enc_field(fields[0]) + enc_fields(fields.skip(1))
    }
}

/// Encoding of a whole structure: its name, the field count, the
/// fields.
pub open spec fn encode(m: StructureModel) -> Seq<char> {
    enc_str(m.name) + enc_num(m.fields.len() as int) + enc_fields(m.fields)
}

/// Decoding a number: sixteen hexadecimal digits, and the rest.
pub open spec fn dec_num(t: Seq<char>) -> Option<(int, Seq<char>)> {
    if t.len() >= 16 && all_hex(t.take(16)) {
        Some((hex_value(t.take(16)), t.skip(16)))
    } else {
        None
    }
}

/// Decoding a string: its length, then that many characters.
pub open spec fn dec_str(t: Seq<char>) -> Option<(Seq<char>, Seq<char>)> {
    match dec_num(t) {
        None => None,
        Some((n, r)) => if r.len() >= n {
            Some((r.take(n), r.skip(n)))
        } else {
            None
        },
    }
}

/// Decoding a value: a type tag, then the payload.
pub open spec fn dec_value(t: Seq<char>) -> Option<(ValueModel, Seq<char>)> {
    if t.len() == 0 {
        None
    } else if t[0] == 'i' {
        match dec_num(t.skip(1)) {
            None => None,
            Some((n, r)) => if n < 0x1_0000_0000 {
                Some((ValueModel::I32((n - 0x8000_0000) as i32), r))
            } else {
                None
            },
        }
    } else if t[0] == 'u' {
        match dec_num(t.skip(1)) {
            None => None,
            Some((n, r)) => if n < 0x1_0000_0000 {
                Some((ValueModel::U32(n as u32), r))
            } else {
                None
            },
        }
    } else if t[0] == 'b' {
        if t.len() >= 2 && (t[1] == 't' || t[1] == 'f') {
            Some((ValueModel::Bool(t[1] == 't'), t.skip(2)))
        } else {
            None
        }
    } else if t[0] == 's' {
        match dec_str(t.skip(1)) {
            None => None,
            Some((s, r)) => Some((ValueModel::Str(s), r)),
        }
    } else {
        None
    }
}

/// Decoding one field: its name, then its value.
pub open spec fn dec_field(t: Seq<char>) -> Option<(FieldModel, Seq<char>)> {
    match dec_str(t) {
        None => None,
        Some((name, r)) => match dec_value(r) {
            None => None,
            Some((v, r2)) => Some(((name, v), r2)),
        },
    }
}

/// Decoding a count of fields, folding each into the accumulator
/// with overwrite-or-append semantics.
pub open spec fn dec_fields(t: Seq<char>, n: nat, acc: FieldsModel) -> Option<
    (FieldsModel, Seq<char>),
>
    decreases n,
{
    if n == 0 {
        Some((acc, t))
    } else {
        match dec_field(t) {
            None => None,
            Some((f, r)) => dec_fields(r, (n - 1) as nat, set_field(acc, f.0, f.1)),
        }
    }
}

/// Decoding a whole structure; `None` on any malformed or trailing
/// text.
pub open spec fn decode(t: Seq<char>) -> Option<StructureModel> {
    match dec_str(t) {
        None => None,
        Some((name, r1)) => match dec_num(r1) {
            None => None,
            Some((n, r2)) => match dec_fields(r2, n as nat, Seq::empty()) {
                None => None,
                Some((fields, rest)) => if rest.len() == 0 {
                    Some(StructureModel { name, fields })
                } else {
                    None
                },
            },
        },
    }
}

/// All lengths of a structure fit in the sixteen-digit numbers of the
/// text form (a machine limit: they are lengths of actual strings and
/// vectors).
pub open spec fn bounded_value(v: ValueModel) -> bool {
    match v {
        ValueModel::Str(s) => s.len() < pow16(16),
        _ => true,
    }
}

/// All lengths in the model fit the text form's numbers.
pub open spec fn bounded_model(m: StructureModel) -> bool {
    &&& m.name.len() < pow16(16)
    &&& m.fields.len() < pow16(16)
    &&& forall|i: int| 0 <= i < m.fields.len() ==> (#[trigger] m.fields[i]).0.len() < pow16(16)
        && bounded_value(m.fields[i].1)
}

/// Concrete powers of sixteen used by the text form.
pub proof fn lemma_pow16_16()
    ensures
        pow16(15) == 0x1000_0000_0000_0000,
        pow16(16) == 0x1_0000_0000_0000_0000,
        forall|w: nat, v: nat| w <= v ==> pow16(w) <= pow16(v),
        forall|w: nat| pow16(w) >= 1,
{
    assert forall|w: nat| pow16(w) >= 1 by {
        lemma_pow16_pos(w);
    }
    assert forall|w: nat, v: nat| w <= v implies pow16(w) <= pow16(v) by {
        lemma_pow16_mono(w, v);
    }
    assert(pow16(0) == 1);
    assert(pow16(1) == 16);
    assert(pow16(2) == 0x100);
    assert(pow16(3) == 0x1000);
    assert(pow16(4) == 0x1_0000);
    assert(pow16(5) == 0x10_0000);
    assert(pow16(6) == 0x100_0000);
    assert(pow16(7) == 0x1000_0000);
    assert(pow16(8) == 0x1_0000_0000);
    assert(pow16(9) == 0x10_0000_0000);
    assert(pow16(10) == 0x100_0000_0000);
    assert(pow16(11) == 0x1000_0000_0000);
    assert(pow16(12) == 0x1_0000_0000_0000);
    assert(pow16(13) == 0x10_0000_0000_0000);
    assert(pow16(14) == 0x100_0000_0000_0000);
    assert(pow16(15) == 0x1000_0000_0000_0000);
    assert(pow16(16) == 0x1_0000_0000_0000_0000);
}

proof fn lemma_pow16_pos(w: nat)
    ensures
        pow16(w) >= 1,
    decreases w,
{
    if w > 0 {
        lemma_pow16_pos((w - 1) as nat);
    }
}

proof fn lemma_pow16_mono(w: nat, v: nat)
    requires
        w <= v,
    ensures
        pow16(w) <= pow16(v),
    decreases v,
{
    if w < v {
        lemma_pow16_mono(w, (v - 1) as nat);
        lemma_pow16_pos((v - 1) as nat);
    }
}

/// The digit table and its inverse agree.
pub proof fn lemma_hex_char_val(d: int)
    requires
        0 <= d < 16,
    ensures
        hex_val(hex_char(d)) == d,
{
}

/// Writing a number in `w` digits and reading it back: exact for
/// numbers below `16^w`.
pub proof fn lemma_hex_digits(n: int, w: nat)
    requires
        0 <= n < pow16(w),
    ensures
        hex_digits(n, w).len() == w,
        all_hex(hex_digits(n, w)),
        hex_value(hex_digits(n, w)) == n,
    decreases w,
{
    if w == 0 {
    } else {
        lemma_fundamental_div_mod(n, 16);
        assert(16 * (n / 16) <= n);
        assert(pow16(w) == 16 * pow16((w - 1) as nat));
        assert(n / 16 < pow16((w - 1) as nat)) by {
            if n / 16 >= pow16((w - 1) as nat) {
                assert(16 * (n / 16) >= 16 * pow16((w - 1) as nat)) by (nonlinear_arith)
                    requires n / 16 >= pow16((w - 1) as nat);
            }
        }
        lemma_hex_digits(n / 16, (w - 1) as nat);
        let prefix = hex_digits(n / 16, (w - 1) as nat);
        let d = n % 16;
        lemma_hex_char_val(d);
        let s = prefix.push(hex_char(d));
        assert(s.drop_last() =~= prefix);
        assert(s.last() == hex_char(d));
        assert forall|i: int| 0 <= i < s.len() implies hex_val(s[i]) >= 0 by {
            if i < s.len() - 1 {
                assert(s[i] == prefix[i]);
            }
        }
        assert(hex_value(s) == hex_value(prefix) * 16 + hex_val(hex_char(d)));
        assert(hex_value(s) == (n / 16) * 16 + n % 16);
    }
}

/// Reading back an encoded number gives the number and the rest.
pub proof fn lemma_dec_num_enc(n: int, rest: Seq<char>)
    requires
        0 <= n < pow16(16),
    ensures
        dec_num(enc_num(n) + rest) == Some((n, rest)),
{
    lemma_hex_digits(n, 16);
    let t = enc_num(n) + rest;
    assert(t.take(16) =~= enc_num(n));
    assert(t.skip(16) =~= rest);
}

/// Reading back an encoded string gives the string and the rest.
pub proof fn lemma_dec_str_enc(s: Seq<char>, rest: Seq<char>)
    requires
        s.len() < pow16(16),
    ensures
        dec_str(enc_str(s) + rest) == Some((s, rest)),
{
    let t = enc_str(s) + rest;
    assert(t =~= enc_num(s.len() as int) + (s + rest));
    lemma_dec_num_enc(s.len() as int, s + rest);
    assert((s + rest).take(s.len() as int) =~= s);
    assert((s + rest).skip(s.len() as int) =~= rest);
}

/// Reading back an encoded value gives the value and the rest.
pub proof fn lemma_dec_value_enc(v: ValueModel, rest: Seq<char>)
    requires
        bounded_value(v),
    ensures
        dec_value(enc_value(v) + rest) == Some((v, rest)),
{
    lemma_pow16_16();
    let t = enc_value(v) + rest;
    match v {
        ValueModel::I32(i) => {
            assert(t[0] == 'i');
            assert(t.skip(1) =~= enc_num(i + 0x8000_0000) + rest);
            lemma_dec_num_enc(i + 0x8000_0000, rest);
            assert((i + 0x8000_0000 - 0x8000_0000) as i32 == i);
        },
        ValueModel::U32(u) => {
            assert(t[0] == 'u');
            assert(t.skip(1) =~= enc_num(u as int) + rest);
            lemma_dec_num_enc(u as int, rest);
            assert((u as int) as u32 == u);
        },
        ValueModel::Bool(b) => {
            assert(t[0] == 'b');
            if b {
                assert(t[1] == 't');
            } else {
                assert(t[1] == 'f');
            }
            assert(t.skip(2) =~= rest);
        },
        ValueModel::Str(s) => {
            assert(t[0] == 's');
            assert(t.skip(1) =~= enc_str(s) + rest);
            lemma_dec_str_enc(s, rest);
        },
    }
}

/// Reading back an encoded field gives the field and the rest.
pub proof fn lemma_dec_field_enc(f: FieldModel, rest: Seq<char>)
    requires
        f.0.len() < pow16(16),
        bounded_value(f.1),
    ensures
        dec_field(enc_field(f) + rest) == Some((f, rest)),
{
    let t = enc_field(f) + rest;
    assert(t =~= enc_str(f.0) + (enc_value(f.1) + rest));
    lemma_dec_str_enc(f.0, enc_value(f.1) + rest);
    lemma_dec_value_enc(f.1, rest);
}

/// Reading back the encoded fields folds them, in order, into the
/// accumulator.
pub proof fn lemma_dec_fields_enc(fields: FieldsModel, acc: FieldsModel, rest: Seq<char>)
    requires
        forall|i: int| 0 <= i < fields.len() ==> (#[trigger] fields[i]).0.len() < pow16(16)
            && bounded_value(fields[i].1),
    ensures
        dec_fields(enc_fields(fields) + rest, fields.len(), acc) == Some(
            (set_fields(acc, fields), rest),
        ),
    decreases fields.len(),
{
    if fields.len() == 0 {
        assert(enc_fields(fields) + rest =~= rest);
    } else {
        let t = enc_fields(fields) + rest;
        let f0 = fields[0];
        let tail = fields.skip(1);
        assert(t =~= enc_field(f0) + (enc_fields(tail) + rest));
        lemma_dec_field_enc(f0, enc_fields(tail) + rest);
        assert(forall|i: int| 0 <= i < tail.len() ==> tail[i] == fields[i + 1]);
        lemma_dec_fields_enc(tail, set_field(acc, f0.0, f0.1), rest);
    }
}

/// Round trip: decoding the encoding of any structure with unique
/// field names and machine-bounded lengths gives back exactly that
/// structure.
pub proof fn lemma_round_trip(m: StructureModel)
    requires
        bounded_model(m),
        unique_names(m.fields),
    ensures
        decode(encode(m)) matches Some(d) && d.name == m.name && d.fields == m.fields,
{
    let t = encode(m);
    assert(t =~= enc_str(m.name) + (enc_num(m.fields.len() as int) + enc_fields(m.fields)));
    lemma_dec_str_enc(m.name, enc_num(m.fields.len() as int) + enc_fields(m.fields));
    assert(enc_num(m.fields.len() as int) + enc_fields(m.fields) =~= enc_num(
        m.fields.len() as int,
    ) + (enc_fields(m.fields) + Seq::<char>::empty()));
    lemma_dec_num_enc(m.fields.len() as int, enc_fields(m.fields) + Seq::<char>::empty());
    lemma_dec_fields_enc(m.fields, Seq::<FieldModel>::empty(), Seq::<char>::empty());
    assert(Seq::<FieldModel>::empty() + m.fields =~= m.fields);
    crate::fields::lemma_set_fields_unique(Seq::<FieldModel>::empty(), m.fields);
}

/// Appending one more field's encoding.
pub proof fn lemma_enc_fields_snoc(fields: FieldsModel, f: FieldModel)
    ensures
        enc_fields(fields.push(f)) == enc_fields(fields) + enc_field(f),
    decreases fields.len(),
{
    if fields.len() == 0 {
        assert(fields.push(f)[0] == f);
        assert(fields.push(f).skip(1) =~= Seq::<FieldModel>::empty());
        assert(enc_fields(fields.push(f)) == enc_field(f) + enc_fields(
            Seq::<FieldModel>::empty(),
        ));
        assert(enc_fields(Seq::<FieldModel>::empty()) =~= Seq::<char>::empty());
        assert(enc_fields(fields.push(f)) =~= enc_fields(fields) + enc_field(f));
    } else {
        assert(fields.push(f)[0] == fields[0]);
        assert(fields.push(f).skip(1) =~= fields.skip(1).push(f));
        lemma_enc_fields_snoc(fields.skip(1), f);
        assert(enc_fields(fields.push(f)) =~= enc_fields(fields) + enc_field(f));
    }
}

/// Relies on String implementing FromIterator over char: collecting
/// yields exactly the given characters, in order.
#[verifier::external_body]
fn chars_to_string(v: &Vec<char>) -> (r: String)
    ensures
        r@ == v@,
{
    v.iter().collect()
}

/// The characters of a string slice, as a vector.
fn str_to_chars(s: &str) -> (r: Vec<char>)
    ensures
        r@ == s@,
{
    let n = s.unicode_len();
    let mut v: Vec<char> = Vec::new();
    for i in 0..n
        invariant
            n == s@.len(),
            v@ == s@.take(i as int),
    {
        v.push(s.get_char(i));
        proof {
            assert(v@ =~= s@.take(i + 1));
        }
    }
    proof {
        assert(s@.take(n as int) =~= s@);
    }
    v
}

/// The character for a hexadecimal digit.
fn hex_char_exec(d: u8) -> (c: char)
    requires
        d < 16,
    ensures
        c == hex_char(d as int),
{
    if d == 0 { '0' } else if d == 1 { '1' } else if d == 2 { '2' } else if d == 3 { '3' }
    else if d == 4 { '4' } else if d == 5 { '5' } else if d == 6 { '6' } else if d == 7 { '7' }
    else if d == 8 { '8' } else if d == 9 { '9' } else if d == 10 { 'a' } else if d == 11 { 'b' }
    else if d == 12 { 'c' } else if d == 13 { 'd' } else if d == 14 { 'e' } else { 'f' }
}

/// The hexadecimal digit for a character, if it is one.
fn hex_val_exec(c: char) -> (r: Option<u8>)
    ensures
        r is Some <==> hex_val(c) >= 0,
        r matches Some(d) ==> d as int == hex_val(c) && d < 16,
{
    if c == '0' { Some(0) } else if c == '1' { Some(1) } else if c == '2' { Some(2) }
    else if c == '3' { Some(3) } else if c == '4' { Some(4) } else if c == '5' { Some(5) }
    else if c == '6' { Some(6) } else if c == '7' { Some(7) } else if c == '8' { Some(8) }
    else if c == '9' { Some(9) } else if c == 'a' { Some(10) } else if c == 'b' { Some(11) }
    else if c == 'c' { Some(12) } else if c == 'd' { Some(13) } else if c == 'e' { Some(14) }
    else if c == 'f' { Some(15) } else { None }
}

/// Append a number as `w` hexadecimal digits, most significant
/// first.
fn push_hex(out: &mut Vec<char>, n: u64, w: usize)
    ensures
        final(out)@ == old(out)@ + hex_digits(n as int, w as nat),
    decreases w,
{
    if w == 0 {
        proof {
            assert(out@ =~= old(out)@ + hex_digits(n as int, 0));
        }
    } else {
        push_hex(out, n / 16, w - 1);
        out.push(hex_char_exec((n % 16) as u8));
        proof {
            assert(out@ =~= old(out)@ + hex_digits(n as int, w as nat));
        }
    }
}

/// Append the encoding of a string: its length, then its characters.
fn push_enc_str(out: &mut Vec<char>, s: &str)
    ensures
        final(out)@ == old(out)@ + enc_str(s@),
{
    let n = s.unicode_len();
    push_hex(out, n as u64, 16);
    for i in 0..n
        invariant
            n == s@.len(),
            out@ == old(out)@ + enc_num(s@.len() as int) + s@.take(i as int),
    {
        out.push(s.get_char(i));
        proof {
            assert(out@ =~= old(out)@ + enc_num(s@.len() as int) + s@.take(i + 1));
        }
    }
    proof {
        assert(s@.take(n as int) =~= s@);
        assert(out@ =~= old(out)@ + enc_str(s@));
    }
}

/// Append the encoding of a value: its type tag, then its payload.
fn push_value(out: &mut Vec<char>, v: &Value)
    ensures
        final(out)@ == old(out)@ + enc_value(v@),
{
    match v {
        Value::I32(i) => {
            out.push('i');
            let off: u64 = ((*i as i64) + 0x8000_0000i64) as u64;
            push_hex(out, off, 16);
            proof {
                assert(off as int == *i + 0x8000_0000);
                assert(out@ =~= old(out)@ + enc_value(v@));
            }
        },
        Value::U32(u) => {
            out.push('u');
            push_hex(out, *u as u64, 16);
            proof {
                assert(out@ =~= old(out)@ + enc_value(v@));
            }
        },
        Value::Bool(b) => {
            out.push('b');
            out.push(if *b { 't' } else { 'f' });
            proof {
                assert(out@ =~= old(out)@ + enc_value(v@));
            }
        },
        Value::Str(s) => {
            out.push('s');
            push_enc_str(out, s.as_str());
            proof {
                assert(out@ =~= old(out)@ + enc_value(v@));
            }
        },
    }
}

impl Structure {
    /// The canonical textual encoding of this structure.
    pub fn to_string(&self) -> (r: String)
        ensures
            r@ == encode(self@),
    {
        let mut out: Vec<char> = Vec::new();
        push_enc_str(&mut out, self.get_name());
        let n = self.n_fields();
        push_hex(&mut out, n as u64, 16);
        proof {
            assert(self@.fields.take(0) =~= Seq::<FieldModel>::empty());
        }
        for idx in 0..n
            invariant
                n == self@.fields.len(),
                out@ == enc_str(self@.name) + enc_num(self@.fields.len() as int) + enc_fields(
                    self@.fields.take(idx as int),
                ),
        {
            let entry = self.nth_entry(idx);
            push_enc_str(&mut out, entry.0.as_str());
            push_value(&mut out, entry.1);
            proof {
                assert(self@.fields.take(idx + 1) =~= self@.fields.take(idx as int).push(
                    self@.fields[idx as int],
                ));
                lemma_enc_fields_snoc(self@.fields.take(idx as int), self@.fields[idx as int]);
                assert(out@ =~= enc_str(self@.name) + enc_num(self@.fields.len() as int)
                    + enc_fields(self@.fields.take(idx + 1)));
            }
        }
        proof {
            assert(self@.fields.take(n as int) =~= self@.fields);
        }
        chars_to_string(&out)
    }
}

/// Parse sixteen hexadecimal digits at the given position.
fn parse_num(t: &Vec<char>, pos: usize) -> (r: Option<(u64, usize)>)
    requires
        pos <= t@.len(),
    ensures
        match r {
            Some(p) => {
                &&& dec_num(t@.skip(pos as int)) == Some((p.0 as int, t@.skip(p.1 as int)))
                &&& p.1 == pos + 16
                &&& p.1 <= t@.len()
            },
            None => dec_num(t@.skip(pos as int)) is None,
        },
{
    let ghost s = t@.skip(pos as int);
    if t.len() - pos < 16 {
        return None;
    }
    let mut acc: u64 = 0;
    let tl: usize = t.len();
    proof {
        lemma_pow16_16();
        assert(s.take(0) =~= Seq::<char>::empty());
    }
    for i in 0..16usize
        invariant
            tl == t@.len(),
            pos + 16 <= tl,
            s == t@.skip(pos as int),
            all_hex(s.take(i as int)),
            acc as int == hex_value(s.take(i as int)),
            acc < pow16(i as nat),
            pow16(15) == 0x1000_0000_0000_0000,
            forall|w: nat, v: nat| w <= v ==> pow16(w) <= pow16(v),
    {
        let c = t[pos + i];
        proof {
            assert(s[i as int] == t@[pos + i]);
        }
        match hex_val_exec(c) {
            Some(d) => {
                proof {
                    assert(s.take(i + 1).drop_last() =~= s.take(i as int));
                    assert(s.take(i + 1).last() == c);
                    assert(pow16((i + 1) as nat) == 16 * pow16(i as nat));
                    assert(pow16(i as nat) <= pow16(15));
                    assert(hex_value(s.take(i + 1)) == hex_value(s.take(i as int)) * 16 + hex_val(
                        c,
                    ));
                    assert(acc * 16 + d < pow16((i + 1) as nat));
                    assert forall|j: int| 0 <= j < i + 1 implies hex_val(
                        #[trigger] s.take(i + 1)[j],
                    ) >= 0 by {
                        if j < i {
                            assert(s.take(i + 1)[j] == s.take(i as int)[j]);
                        } else {
                            assert(s.take(i + 1)[j] == c);
                        }
                    }
                }
                acc = acc * 16 + (d as u64);
            },
            None => {
                proof {
                    assert(s.take(16)[i as int] == s[i as int]);
                    assert(!all_hex(s.take(16)));
                }
                return None;
            },
        }
    }
    proof {
        assert(t@.skip((pos + 16) as int) =~= s.skip(16));
    }
    Some((acc, pos + 16))
}

/// Parse a length-prefixed string at the given position.
fn parse_str(t: &Vec<char>, pos: usize) -> (r: Option<(String, usize)>)
    requires
        pos <= t@.len(),
    ensures
        match r {
            Some(p) => {
                &&& dec_str(t@.skip(pos as int)) matches Some(q) && q.0 == p.0@ && q.1 == t@.skip(
                    p.1 as int,
                )
                &&& pos <= p.1 <= t@.len()
            },
            None => dec_str(t@.skip(pos as int)) is None,
        },
{
    match parse_num(t, pos) {
        None => None,
        Some((n, p1)) => {
            proof {
                assert(t@.skip(p1 as int).len() == t@.len() - p1);
            }
            if n > (t.len() - p1) as u64 {
                None
            } else {
                let nn = n as usize;
                let tl: usize = t.len();
                let mut v: Vec<char> = Vec::new();
                proof {
                    assert(t@.subrange(p1 as int, p1 as int) =~= Seq::<char>::empty());
                }
                for i in 0..nn
                    invariant
                        tl == t@.len(),
                        p1 + nn <= tl,
                        v@ == t@.subrange(p1 as int, p1 + i),
                {
                    v.push(t[p1 + i]);
                    proof {
                        assert(v@ =~= t@.subrange(p1 as int, p1 + i + 1));
                    }
                }
                let s = chars_to_string(&v);
                proof {
                    assert(t@.skip(p1 as int).take(n as int) =~= t@.subrange(
                        p1 as int,
                        p1 + nn,
                    ));
                    assert(t@.skip(p1 as int).skip(n as int) =~= t@.skip((p1 + nn) as int));
                }
                Some((s, p1 + nn))
            }
        },
    }
}

/// Parse a tagged value at the given position.
fn parse_value(t: &Vec<char>, pos: usize) -> (r: Option<(Value, usize)>)
    requires
        pos <= t@.len(),
    ensures
        match r {
            Some(p) => {
                &&& dec_value(t@.skip(pos as int)) matches Some(q) && q.0 == p.0@ && q.1
                    == t@.skip(p.1 as int)
                &&& pos <= p.1 <= t@.len()
            },
            None => dec_value(t@.skip(pos as int)) is None,
        },
{
    let ghost s = t@.skip(pos as int);
    if pos >= t.len() {
        return None;
    }
    let c = t[pos];
    proof {
        assert(s[0] == t@[pos as int]);
        assert(s.skip(1) =~= t@.skip(pos + 1));
    }
    if c == 'i' {
        match parse_num(t, pos + 1) {
            None => None,
            Some((v, p1)) => {
                if v >= 0x1_0000_0000u64 {
                    None
                } else {
                    let iv: i32 = ((v as i64) - 0x8000_0000i64) as i32;
                    proof {
                        assert(iv as int == v as int - 0x8000_0000);
                        assert(iv == (v as int - 0x8000_0000) as i32);
                    }
                    Some((Value::I32(iv), p1))
                }
            },
        }
    } else if c == 'u' {
        match parse_num(t, pos + 1) {
            None => None,
            Some((v, p1)) => {
                if v >= 0x1_0000_0000u64 {
                    None
                } else {
                    Some((Value::U32(v as u32), p1))
                }
            },
        }
    } else if c == 'b' {
        if t.len() - pos >= 2 {
            let c2 = t[pos + 1];
            proof {
                assert(s[1] == t@[pos + 1]);
                assert(s.skip(2) =~= t@.skip(pos + 2));
            }
            if c2 == 't' {
                Some((Value::Bool(true), pos + 2))
            } else if c2 == 'f' {
                Some((Value::Bool(false), pos + 2))
            } else {
                None
            }
        } else {
            None
        }
    } else if c == 's' {
        match parse_str(t, pos + 1) {
            None => None,
            Some((st, p1)) => Some((Value::Str(st), p1)),
        }
    } else {
        None
    }
}

impl OwnedStructure {
    /// Parse the canonical text form; `None` when the text is not
    /// well-formed, with no further classification of the cause.
    pub fn from_string(s: &str) -> (r: Option<OwnedStructure>)
        ensures
            r is Some <==> decode(s@) is Some,
            r matches Some(st) ==> decode(s@) matches Some(d) && st@.name == d.name && st@.fields
                == d.fields && st.wf(),
    {
        let t = str_to_chars(s);
        proof {
            assert(t@.skip(0) =~= t@);
        }
        match parse_str(&t, 0) {
            None => None,
            Some((name, p1)) => {
                match parse_num(&t, p1) {
                    None => None,
                    Some((nf, p2)) => {
                        let ghost r2 = t@.skip(p2 as int);
                        let mut st = OwnedStructure::new_empty(name.as_str());
                        let mut pos: usize = p2;
                        proof {
                            assert(st@.fields =~= Seq::<FieldModel>::empty());
                        }
                        for k in 0..nf
                            invariant
                                pos <= t@.len(),
                                st.wf(),
                                st@.name == name@,
                                t@ == s@,
                                dec_str(t@) matches Some(q1) && q1.0 == name@ && q1.1 == t@.skip(
                                    p1 as int,
                                ),
                                dec_num(t@.skip(p1 as int)) == Some((nf as int, r2)),
                                r2 == t@.skip(p2 as int),
                                dec_fields(t@.skip(pos as int), (nf - k) as nat, st@.fields)
                                    == dec_fields(r2, nf as nat, Seq::<FieldModel>::empty()),
                        {
                            let ghost pos0 = pos as int;
                            let ghost fields0 = st@.fields;
                            match parse_str(&t, pos) {
                                None => {
                                    proof {
                                        assert(dec_field(t@.skip(pos0)) is None);
                                        assert(dec_fields(t@.skip(pos0), (nf - k) as nat, fields0)
                                            is None);
                                    }
                                    return None;
                                },
                                Some((fname, pmid)) => {
                                    match parse_value(&t, pmid) {
                                        None => {
                                            proof {
                                                assert(dec_field(t@.skip(pos0)) is None);
                                                assert(dec_fields(
                                                    t@.skip(pos0),
                                                    (nf - k) as nat,
                                                    fields0,
                                                ) is None);
                                            }
                                            return None;
                                        },
                                        Some((val, pnew)) => {
                                            proof {
                                                assert(dec_field(t@.skip(pos0)) == Some(
                                                    ((fname@, val@), t@.skip(pnew as int)),
                                                ));
                                            }
                                            st.set(fname.as_str(), val);
                                            pos = pnew;
                                            proof {
                                                assert(dec_fields(
                                                    t@.skip(pos0),
                                                    (nf - k) as nat,
                                                    fields0,
                                                ) == dec_fields(
                                                    t@.skip(pos as int),
                                                    (nf - k - 1) as nat,
                                                    st@.fields,
                                                ));
                                            }
                                        },
                                    }
                                },
                            }
                        }
                        proof {
                            assert(dec_fields(t@.skip(pos as int), 0, st@.fields) == Some(
                                (st@.fields, t@.skip(pos as int)),
                            ));
                        }
                        if pos == t.len() {
                            proof {
                                assert(t@.skip(pos as int).len() == 0);
                            }
                            Some(st)
                        } else {
                            proof {
                                assert(t@.skip(pos as int).len() > 0);
                            }
                            None
                        }
                    },
                }
            },
        }
    }
}

impl OwnedStructure {
    /// The canonical textual encoding of the owned structure.
    pub fn to_string(&self) -> (r: String)
        ensures
            r@ == encode(self@),
    {
        self.as_ref().to_string()
    }
}

} // verus!
