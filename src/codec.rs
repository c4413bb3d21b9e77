//! Protobuf wire format: varints and the field scanner that message decoders
//! are built on.

use vstd::prelude::*;
use vstd::utf8::*;

verus! {

/// Largest number of bytes a varint may take.
pub const MAX_VARINT_BYTES: usize = 10;

/// `128^n`: one more than the largest value that `n` varint bytes carry.
pub open spec fn varint_cap(n: nat) -> int
    decreases n,
{
    if n == 0 {
        1
    } else {
        128 * varint_cap((n - 1) as nat)
    }
}

/// The varint whose first byte is at `i`, `n` bytes of it being already read:
/// its value (unbounded) and the position after it.
pub open spec fn varint_rest(s: Seq<u8>, i: int, n: nat) -> Option<(int, int)>
    decreases 10 - n,
{
    if n >= 10 || i < 0 || i >= s.len() {
        None
    } else if s[i] < 128 {
        Some((s[i] as int, i + 1))
    } else {
        match varint_rest(s, i + 1, n + 1) {
            Some((v, e)) => Some(((s[i] - 128) + 128 * v, e)),
            None => None,
        }
    }
}

/// The varint at position `i` of `s`, if it is complete, at most ten bytes
/// long and fits in 64 bits: its value and the position after it.
pub open spec fn varint_at(s: Seq<u8>, i: int) -> Option<(u64, int)> {
    match varint_rest(s, i, 0) {
        Some((v, e)) => if v <= u64::MAX {
            Some((v as u64, e))
        } else {
            None
        },
        None => None,
    }
}

proof fn lemma_varint_rest_bounds(s: Seq<u8>, i: int, n: nat)
    requires
        n <= 10,
    ensures
        varint_rest(s, i, n) matches Some((v, e)) ==> 0 <= v < varint_cap((10 - n) as nat) && i
            < e <= s.len(),
    decreases 10 - n,
{
    if n < 10 && 0 <= i < s.len() && s[i] >= 128 {
        lemma_varint_rest_bounds(s, i + 1, n + 1);
        if let Some((v, e)) = varint_rest(s, i + 1, n + 1) {
            let c = varint_cap((10 - (n + 1)) as nat);
            assert(varint_cap((10 - n) as nat) == 128 * c);
            assert((s[i] - 128) + 128 * v < 128 * c) by (nonlinear_arith)
                requires
                    0 <= s[i] - 128 < 128,
                    0 <= v < c,
            ;
        }
    } else if n < 10 && 0 <= i < s.len() {
        assert(varint_cap((10 - n) as nat) >= 128) by {
            lemma_varint_cap_grows((10 - n) as nat);
        }
    }
}

proof fn lemma_varint_cap_grows(n: nat)
    requires
        n >= 1,
    ensures
        varint_cap(n) >= 128,
    decreases n,
{
    reveal_with_fuel(varint_cap, 2);
    if n > 1 {
        lemma_varint_cap_grows((n - 1) as nat);
    }
}

fn read_varint_rest(s: &[u8], i: usize, n: usize) -> (r: Option<(u128, usize)>)
    requires
        n <= 10,
    ensures
        match r {
            Some((v, e)) => varint_rest(s@, i as int, n as nat) == Some((v as int, e as int)),
            None => varint_rest(s@, i as int, n as nat) is None,
        },
    decreases 10 - n,
{
    if n >= MAX_VARINT_BYTES || i >= s.len() {
        return None;
    }
    let b = s[i];
    if b < 128 {
        return Some((b as u128, i + 1));
    }
    match read_varint_rest(s, i + 1, n + 1) {
        Some((v, e)) => {
            proof {
                lemma_varint_rest_bounds(s@, i + 1, (n + 1) as nat);
                lemma_varint_cap_ten((10 - (n + 1)) as nat);
            }
            Some(((b - 128) as u128 + 128 * v, e))
        },
        None => None,
    }
}

proof fn lemma_varint_cap_ten(n: nat)
    requires
        n <= 9,
    ensures
        varint_cap(n) <= 0x8000000000000000,
    decreases 9 - n,
{
    if n < 9 {
        lemma_varint_cap_ten(n + 1);
        assert(varint_cap(n + 1) == 128 * varint_cap(n));
        lemma_varint_cap_positive(n);
    } else {
        reveal_with_fuel(varint_cap, 10);
    }
}

proof fn lemma_varint_cap_positive(n: nat)
    ensures
        varint_cap(n) >= 1,
    decreases n,
{
    if n > 0 {
        lemma_varint_cap_positive((n - 1) as nat);
    }
}

/// Reads the varint at position `i` of `s`.
pub fn read_varint(s: &[u8], i: usize) -> (r: Option<(u64, usize)>)
    ensures
        match r {
            Some((v, e)) => varint_at(s@, i as int) == Some((v, e as int)),
            None => varint_at(s@, i as int) is None,
        },
{
    match read_varint_rest(s, i, 0) {
        Some((v, e)) => if v <= u64::MAX as u128 {
            Some((v as u64, e))
        } else {
            None
        },
        None => None,
    }
}

/// What a field carries, by wire type.
#[derive(Clone, Debug, PartialEq, Eq)]
pub enum FieldValue {
    /// Wire type 0.
    Varint(u64),
    /// Wire type 2: the bytes inside the length prefix.
    Bytes(Vec<u8>),
    /// Wire types 1 and 5: eight or four raw bytes.
    Fixed(Vec<u8>),
}

/// One field of a message: its number and what it carries.
#[derive(Clone, Debug, PartialEq, Eq)]
pub struct Field {
    pub number: u64,
    pub value: FieldValue,
}

pub ghost enum FieldValueModel {
    Varint(u64),
    Bytes(Seq<u8>),
    Fixed(Seq<u8>),
}

pub ghost struct FieldModel {
    pub number: u64,
    pub value: FieldValueModel,
}

impl View for FieldValue {
    type V = FieldValueModel;

    open spec fn view(&self) -> FieldValueModel {
        match self {
            FieldValue::Varint(v) => FieldValueModel::Varint(*v),
            FieldValue::Bytes(b) => FieldValueModel::Bytes(b@),
            FieldValue::Fixed(b) => FieldValueModel::Fixed(b@),
        }
    }
}

impl View for Field {
    type V = FieldModel;

    open spec fn view(&self) -> FieldModel {
        FieldModel { number: self.number, value: self.value@ }
    }
}

pub open spec fn fields_view(v: Seq<Field>) -> Seq<FieldModel> {
    v.map_values(|f: Field| f@)
}

/// The field whose key starts at position `i`, and the position after it.
/// Field number 0 and the group wire types 3 and 4 are malformed.
pub open spec fn field_at(s: Seq<u8>, i: int) -> Option<(FieldModel, int)> {
    match varint_at(s, i) {
        None => None,
        Some((key, j)) => {
            let number = key / 8;
            let wire = key % 8;
            if number == 0 {
                None
            } else if wire == 0 {
                match varint_at(s, j) {
                    Some((v, k)) => Some(
                        (FieldModel { number, value: FieldValueModel::Varint(v) }, k),
                    ),
                    None => None,
                }
            } else if wire == 2 {
                match varint_at(s, j) {
                    Some((n, k)) => if k + n <= s.len() {
                        Some(
                            (
                                FieldModel {
                                    number,
                                    value: FieldValueModel::Bytes(s.subrange(k, k + n)),
                                },
                                k + n,
                            ),
                        )
                    } else {
                        None
                    },
                    None => None,
                }
            } else if wire == 1 || wire == 5 {
                let w: int = if wire == 1 {
                    8
                } else {
                    4
                };
                if j + w <= s.len() {
                    Some(
                        (
                            FieldModel {
                                number,
                                value: FieldValueModel::Fixed(s.subrange(j, j + w)),
                            },
                            j + w,
                        ),
                    )
                } else {
                    None
                }
            } else {
                None
            }
        },
    }
}

/// The fields of `s` from position `i` on, or `None` where the bytes are not
/// a sequence of well-formed fields.
pub open spec fn fields_from(s: Seq<u8>, i: int) -> Option<Seq<FieldModel>>
    decreases s.len() - i,
{
    if i >= s.len() {
        Some(Seq::empty())
    } else {
        match field_at(s, i) {
            Some((f, j)) => if i < j <= s.len() {
                match fields_from(s, j) {
                    Some(rest) => Some(seq![f] + rest),
                    None => None,
                }
            } else {
                None
            },
            None => None,
        }
    }
}

/// The fields of a whole message.
pub open spec fn fields_of(s: Seq<u8>) -> Option<Seq<FieldModel>> {
    fields_from(s, 0)
}

pub open spec fn prepend(front: Seq<FieldModel>, rest: Option<Seq<FieldModel>>) -> Option<
    Seq<FieldModel>,
> {
    match rest {
        Some(r) => Some(front + r),
        None => None,
    }
}

fn copy_range(s: &[u8], from: usize, to: usize) -> (r: Vec<u8>)
    requires
        from <= to <= s.len(),
    ensures
        r@ == s@.subrange(from as int, to as int),
{
    let mut r: Vec<u8> = Vec::new();
    let mut k: usize = from;
    while k < to
        invariant
            from <= k <= to <= s.len(),
            r@ == s@.subrange(from as int, k as int),
        decreases to - k,
    {
        r.push(s[k]);
        k += 1;
    }
    r
}

/// Reads the field whose key starts at position `i`.
pub fn read_field(s: &[u8], i: usize) -> (r: Option<(Field, usize)>)
    ensures
        match r {
            Some((f, e)) => field_at(s@, i as int) == Some((f@, e as int)),
            None => field_at(s@, i as int) is None,
        },
{
    let (key, j) = match read_varint(s, i) {
        Some(p) => p,
        None => return None,
    };
    let number = key / 8;
    let wire = key % 8;
    if number == 0 {
        None
    } else if wire == 0 {
        match read_varint(s, j) {
            Some((v, k)) => Some((Field { number, value: FieldValue::Varint(v) }, k)),
            None => None,
        }
    } else if wire == 2 {
        match read_varint(s, j) {
            Some((n, k)) => {
                proof {
                    lemma_varint_end(s@, j as int);
                }
                if n <= (s.len() - k) as u64 {
                    let e = k + n as usize;
                    Some((Field { number, value: FieldValue::Bytes(copy_range(s, k, e)) }, e))
                } else {
                    None
                }
            },
            None => None,
        }
    } else if wire == 1 || wire == 5 {
        let w: usize = if wire == 1 {
            8
        } else {
            4
        };
        proof {
            lemma_varint_end(s@, i as int);
        }
        if w <= s.len() - j {
            Some((Field { number, value: FieldValue::Fixed(copy_range(s, j, j + w)) }, j + w))
        } else {
            None
        }
    } else {
        None
    }
}

proof fn lemma_varint_end(s: Seq<u8>, i: int)
    ensures
        varint_at(s, i) matches Some((v, e)) ==> i < e <= s.len(),
{
    lemma_varint_rest_bounds(s, i, 0);
}

proof fn lemma_field_end(s: Seq<u8>, i: int)
    ensures
        field_at(s, i) matches Some((f, e)) ==> i < e <= s.len(),
{
    lemma_varint_end(s, i);
    if let Some((key, j)) = varint_at(s, i) {
        lemma_varint_end(s, j);
    }
}

/// Splits a message into its fields; `None` where the bytes are malformed.
pub fn parse_fields(s: &[u8]) -> (r: Option<Vec<Field>>)
    ensures
        match r {
            Some(v) => fields_of(s@) == Some(fields_view(v@)),
            None => fields_of(s@) is None,
        },
{
    let mut out: Vec<Field> = Vec::new();
    let mut i: usize = 0;
    while i < s.len()
        invariant
            i <= s.len(),
            fields_of(s@) == prepend(fields_view(out@), fields_from(s@, i as int)),
        decreases s.len() - i,
    {
        proof {
            lemma_field_end(s@, i as int);
        }
        match read_field(s, i) {
            Some((f, e)) => {
                proof {
                    let fv = fields_view(out@);
                    let nv = fields_view(out@.push(f));
                    assert(nv =~= fv.push(f@));
                    if let Some(rest) = fields_from(s@, e as int) {
                        assert(fv + (seq![f@] + rest) =~= nv + rest);
                    }
                }
                out.push(f);
                i = e;
            },
            None => return None,
        }
    }
    proof {
        assert(fields_view(out@) + Seq::<FieldModel>::empty() =~= fields_view(out@));
    }
    Some(out)
}


/// Folds `step` over the fields from left to right; `None` as soon as a
/// step refuses a field.
pub open spec fn fold_fields<A>(
    fs: Seq<FieldModel>,
    acc: A,
    step: spec_fn(A, FieldModel) -> Option<A>,
) -> Option<A>
    decreases fs.len(),
{
    if fs.len() == 0 {
        Some(acc)
    } else {
        match step(acc, fs[0]) {
            Some(a) => fold_fields(fs.drop_first(), a, step),
            None => None,
        }
    }
}

/// Decodes a message by folding `step` over its fields, starting at `init`.
pub open spec fn decode_with<A>(
    s: Seq<u8>,
    init: A,
    step: spec_fn(A, FieldModel) -> Option<A>,
) -> Option<A> {
    match fields_of(s) {
        Some(fs) => fold_fields(fs, init, step),
        None => None,
    }
}

pub proof fn lemma_fold_step<A>(
    fs: Seq<FieldModel>,
    i: int,
    acc: A,
    step: spec_fn(A, FieldModel) -> Option<A>,
)
    requires
        0 <= i < fs.len(),
    ensures
        fold_fields(fs.skip(i), acc, step) == match step(acc, fs[i]) {
            Some(a) => fold_fields(fs.skip(i + 1), a, step),
            None => None,
        },
{
    assert(fs.skip(i).drop_first() =~= fs.skip(i + 1));
}

pub proof fn lemma_fold_start<A>(fs: Seq<FieldModel>, acc: A, step: spec_fn(A, FieldModel) -> Option<A>)
    ensures
        fold_fields(fs, acc, step) == fold_fields(fs.skip(0), acc, step),
{
    assert(fs.skip(0) =~= fs);
}

pub proof fn lemma_fold_end<A>(fs: Seq<FieldModel>, acc: A, step: spec_fn(A, FieldModel) -> Option<A>)
    ensures
        fold_fields(fs.skip(fs.len() as int), acc, step) == Some(acc),
{
    assert(fs.skip(fs.len() as int).len() == 0);
}

/// The characters that UTF-8 bytes encode; `None` where they are not UTF-8.
pub open spec fn text_of(b: Seq<u8>) -> Option<Seq<char>> {
    if valid_utf8(b) {
        Some(decode_utf8(b))
    } else {
        None
    }
}

/// Relies on `std::str::from_utf8`: it accepts exactly the valid UTF-8 byte
/// sequences and yields the characters they encode.
#[verifier::external_body]
pub(crate) fn read_text(b: &[u8]) -> (r: Option<String>)
    ensures
        match r {
            Some(t) => text_of(b@) == Some(t@),
            None => text_of(b@) is None,
        },
{
    match std::str::from_utf8(b) {
        Ok(t) => Some(t.to_string()),
        Err(_) => None,
    }
}

/// The low 32 bits of a varint, as a `uint32` field keeps them.
pub open spec fn low_u32(v: u64) -> u32 {
    (v % 0x1_0000_0000) as u32
}

/// The low 32 bits of a varint read as two's complement, as an `int32` or
/// enum field keeps them.
pub open spec fn low_i32(v: u64) -> i32 {
    let t = v % 0x1_0000_0000;
    if t < 0x8000_0000 {
        t as i32
    } else {
        (t - 0x1_0000_0000) as i32
    }
}

pub fn read_u32(v: u64) -> (r: u32)
    ensures
        r == low_u32(v),
{
    (v % 0x1_0000_0000) as u32
}

pub fn read_i32(v: u64) -> (r: i32)
    ensures
        r == low_i32(v),
{
    let t = v % 0x1_0000_0000;
    if t < 0x8000_0000 {
        t as i32
    } else {
        (t as i64 - 0x1_0000_0000) as i32
    }
}

pub fn copy_bytes(b: &Vec<u8>) -> (r: Vec<u8>)
    ensures
        r@ == b@,
{
    copy_range(b.as_slice(), 0, b.len())
}


// ---- encoding ----
/// The varint encoding of `v`: seven bits per byte, low bits first, the
/// high bit set on every byte but the last.
pub open spec fn varint_bytes(v: nat) -> Seq<u8>
    decreases v,
{
    if v < 128 {
        seq![v as u8]
    } else {
        seq![(v % 128 + 128) as u8] + varint_bytes(v / 128)
    }
}

/// The wire type that a field's value travels with.
pub open spec fn wire_of(v: FieldValueModel) -> nat {
    match v {
        FieldValueModel::Varint(_) => 0,
        FieldValueModel::Bytes(_) => 2,
        FieldValueModel::Fixed(b) => if b.len() == 8 {
            1
        } else {
            5
        },
    }
}

/// The key of a field: its number and its wire type.
pub open spec fn key_of(f: FieldModel) -> nat {
    (f.number * 8 + wire_of(f.value)) as nat
}

/// The bytes of a field: its key, then what it carries.
pub open spec fn field_bytes(f: FieldModel) -> Seq<u8> {
    match f.value {
        FieldValueModel::Varint(v) => varint_bytes(key_of(f)) + varint_bytes(v as nat),
        FieldValueModel::Bytes(b) => varint_bytes(key_of(f)) + varint_bytes(b.len()) + b,
        FieldValueModel::Fixed(b) => varint_bytes(key_of(f)) + b,
    }
}

/// A field that the encoding can carry: a number that leaves room for the
/// wire type in a 64-bit key, and fixed values of four or eight bytes.
pub open spec fn encodable_field(f: FieldModel) -> bool {
    &&& 1 <= f.number < 0x1000_0000_0000_0000
    &&& f.value matches FieldValueModel::Fixed(b) ==> (b.len() == 4 || b.len() == 8)
}

/// The bytes of a sequence of fields, one after the other.
pub open spec fn fields_bytes(fs: Seq<FieldModel>) -> Seq<u8>
    decreases fs.len(),
{
    if fs.len() == 0 {
        Seq::empty()
    } else {
        field_bytes(fs[0]) + fields_bytes(fs.drop_first())
    }
}

proof fn lemma_varint_bytes_rest(s: Seq<u8>, i: int, n: nat, v: nat)
    requires
        n < 10,
        v < varint_cap((10 - n) as nat),
        0 <= i,
        i + varint_bytes(v).len() <= s.len(),
        s.subrange(i, i + varint_bytes(v).len()) == varint_bytes(v),
    ensures
        varint_rest(s, i, n) == Some((v as int, i + varint_bytes(v).len())),
    decreases v,
{
    let e = varint_bytes(v);
    assert(s[i] == s.subrange(i, i + e.len())[0]);
    if v < 128 {
    } else {
        let rest = varint_bytes(v / 128);
        assert(e == seq![(v % 128 + 128) as u8] + rest);
        let c = varint_cap((10 - n - 1) as nat);
        assert(varint_cap((10 - n) as nat) == 128 * c);
        if n == 9 {
            reveal_with_fuel(varint_cap, 2);
            assert(false);
        }
        assert(v / 128 < c) by (nonlinear_arith)
            requires
                v < 128 * c,
        ;
        assert(s.subrange(i + 1, i + 1 + rest.len()) =~= rest) by {
            assert forall|k: int| 0 <= k < rest.len() implies s.subrange(i + 1, i + 1 + rest.len())[k]
                == rest[k] by {
                assert(s.subrange(i, i + e.len())[k + 1] == e[k + 1]);
            }
        }
        lemma_varint_bytes_rest(s, i + 1, n + 1, v / 128);
        assert(s[i] - 128 + 128 * (v / 128) == v) by (nonlinear_arith)
            requires
                s[i] == v % 128 + 128,
        ;
    }
}

proof fn lemma_varint_cap_ten_is_large()
    ensures
        varint_cap(10) > u64::MAX,
{
    reveal_with_fuel(varint_cap, 11);
}

/// A varint encoding reads back as the value it encodes.
pub proof fn lemma_varint_read(s: Seq<u8>, i: int, v: nat)
    requires
        v <= u64::MAX,
        0 <= i,
        i + varint_bytes(v).len() <= s.len(),
        s.subrange(i, i + varint_bytes(v).len()) == varint_bytes(v),
    ensures
        varint_at(s, i) == Some((v as u64, i + varint_bytes(v).len())),
{
    lemma_varint_cap_ten_is_large();
    lemma_varint_bytes_rest(s, i, 0, v);
}

pub proof fn lemma_varint_bytes_len(v: nat)
    ensures
        1 <= varint_bytes(v).len() <= v + 1,
    decreases v,
{
    if v >= 128 {
        lemma_varint_bytes_len(v / 128);
    }
}

proof fn lemma_subrange_split(s: Seq<u8>, i: int, a: Seq<u8>, b: Seq<u8>)
    requires
        0 <= i,
        i + a.len() + b.len() <= s.len(),
        s.subrange(i, i + a.len() + b.len()) == a + b,
    ensures
        s.subrange(i, i + a.len()) == a,
        s.subrange(i + a.len(), i + a.len() + b.len()) == b,
{
    assert(s.subrange(i, i + a.len()) =~= a) by {
        assert forall|k: int| 0 <= k < a.len() implies s.subrange(i, i + a.len())[k] == a[k] by {
            assert(s.subrange(i, i + a.len() + b.len())[k] == (a + b)[k]);
            assert(s.subrange(i, i + a.len() + b.len())[k] == s[i + k]);
            assert(s.subrange(i, i + a.len())[k] == s[i + k]);
        }
    }
    assert(s.subrange(i + a.len(), i + a.len() + b.len()) =~= b) by {
        assert forall|k: int| 0 <= k < b.len() implies s.subrange(
            i + a.len(),
            i + a.len() + b.len(),
        )[k] == b[k] by {
            assert(s.subrange(i, i + a.len() + b.len())[a.len() + k] == (a + b)[a.len() + k]);
            assert(s.subrange(i, i + a.len() + b.len())[a.len() + k] == s[i + a.len() + k]);
            assert(s.subrange(i + a.len(), i + a.len() + b.len())[k] == s[i + a.len() + k]);
            assert((a + b)[a.len() + k] == b[k]);
        }
    }
}

proof fn lemma_key(f: FieldModel)
    requires
        encodable_field(f),
    ensures
        key_of(f) <= u64::MAX,
        (key_of(f) as u64) / 8 == f.number,
        (key_of(f) as u64) % 8 == wire_of(f.value),
{
    let number = f.number;
    let wire = wire_of(f.value);
    assert(wire < 8);
    assert(key_of(f) == number * 8 + wire);
    assert(number * 8 + wire <= u64::MAX && ((number * 8 + wire) as u64) / 8 == number && ((number
        * 8 + wire) as u64) % 8 == wire) by (nonlinear_arith)
        requires
            number < 0x1000_0000_0000_0000,
            wire < 8,
    ;
}

/// An encoded field reads back as the field, where the whole buffer's
/// length fits in 64 bits.
pub proof fn lemma_field_read(s: Seq<u8>, i: int, f: FieldModel)
    requires
        encodable_field(f),
        s.len() <= u64::MAX,
        0 <= i,
        i + field_bytes(f).len() <= s.len(),
        s.subrange(i, i + field_bytes(f).len()) == field_bytes(f),
    ensures
        field_at(s, i) == Some((f, i + field_bytes(f).len())),
{
    match f.value {
        FieldValueModel::Varint(v) => {
            let k = varint_bytes(key_of(f));
            let w = varint_bytes(v as nat);
            lemma_key(f);
            lemma_subrange_split(s, i, k, w);
            lemma_varint_read(s, i, key_of(f));
            lemma_varint_read(s, i + k.len(), v as nat);
        },
        FieldValueModel::Bytes(b) => {
            let k = varint_bytes(key_of(f));
            let l = varint_bytes(b.len());
            lemma_key(f);
            assert(field_bytes(f) =~= k + (l + b));
            lemma_subrange_split(s, i, k, l + b);
            lemma_subrange_split(s, i + k.len(), l, b);
            lemma_varint_read(s, i, key_of(f));
            lemma_varint_read(s, i + k.len(), b.len());
            assert(s.subrange(i + k.len() + l.len(), i + k.len() + l.len() + b.len()) == b);
        },
        FieldValueModel::Fixed(b) => {
            let k = varint_bytes(key_of(f));
            lemma_key(f);
            lemma_subrange_split(s, i, k, b);
            lemma_varint_read(s, i, key_of(f));
        },
    }
}

pub proof fn lemma_field_bytes_len(f: FieldModel)
    ensures
        field_bytes(f).len() >= 1,
        f.value matches FieldValueModel::Bytes(b) ==> b.len() <= field_bytes(f).len(),
{
    lemma_varint_bytes_len(key_of(f));
}

/// Encoded fields read back as the fields, where the buffer's length fits
/// in 64 bits.
pub proof fn lemma_fields_read(s: Seq<u8>, i: int, fs: Seq<FieldModel>)
    requires
        forall|k: int| 0 <= k < fs.len() ==> encodable_field(#[trigger] fs[k]),
        s.len() <= u64::MAX,
        0 <= i <= s.len(),
        s.subrange(i, s.len() as int) == fields_bytes(fs),
    ensures
        fields_from(s, i) == Some(fs),
    decreases fs.len(),
{
    if fs.len() == 0 {
        assert(fs =~= Seq::<FieldModel>::empty());
    } else {
        let a = field_bytes(fs[0]);
        let b = fields_bytes(fs.drop_first());
        lemma_field_bytes_len(fs[0]);
        assert(fields_bytes(fs) == a + b);
        assert(s.subrange(i, i + a.len() + b.len()) == a + b);
        lemma_subrange_split(s, i, a, b);
        lemma_field_read(s, i, fs[0]);
        assert(s.subrange(i + a.len(), s.len() as int) == b);
        lemma_fields_read(s, i + a.len(), fs.drop_first());
        assert(seq![fs[0]] + fs.drop_first() =~= fs);
    }
}

/// Encoded fields parse back into the same fields.
pub proof fn lemma_fields_round_trip(fs: Seq<FieldModel>)
    requires
        forall|k: int| 0 <= k < fs.len() ==> encodable_field(#[trigger] fs[k]),
        fields_bytes(fs).len() <= u64::MAX,
    ensures
        fields_of(fields_bytes(fs)) == Some(fs),
{
    let s = fields_bytes(fs);
    assert(s.subrange(0, s.len() as int) =~= s);
    lemma_fields_read(s, 0, fs);
}


pub broadcast proof fn lemma_fold_push<A>(
    fs: Seq<FieldModel>,
    f: FieldModel,
    acc: A,
    step: spec_fn(A, FieldModel) -> Option<A>,
)
    ensures
        #[trigger] fold_fields(fs.push(f), acc, step) == match fold_fields(fs, acc, step) {
            Some(a) => step(a, f),
            None => None,
        },
    decreases fs.len(),
{
    if fs.len() == 0 {
        assert(fs.push(f).drop_first() =~= Seq::<FieldModel>::empty());
        assert(fs.push(f)[0] == f);
        if let Some(a) = step(acc, f) {
            assert(fold_fields(Seq::<FieldModel>::empty(), a, step) == Some(a));
        }
    } else {
        assert(fs.push(f).drop_first() =~= fs.drop_first().push(f));
        if let Some(a) = step(acc, fs[0]) {
            lemma_fold_push(fs.drop_first(), f, a, step);
        }
    }
}

pub proof fn lemma_fold_concat<A>(
    a: Seq<FieldModel>,
    b: Seq<FieldModel>,
    acc: A,
    step: spec_fn(A, FieldModel) -> Option<A>,
)
    ensures
        fold_fields(a + b, acc, step) == match fold_fields(a, acc, step) {
            Some(x) => fold_fields(b, x, step),
            None => None,
        },
    decreases b.len(),
{
    if b.len() == 0 {
        assert(a + b =~= a);
    } else {
        let c = b.drop_last();
        assert(a + b =~= (a + c).push(b.last()));
        assert(b =~= c.push(b.last()));
        lemma_fold_push(a + c, b.last(), acc, step);
        lemma_fold_concat(a, c, acc, step);
        if let Some(x) = fold_fields(a, acc, step) {
            lemma_fold_push(c, b.last(), x, step);
        }
    }
}

/// Folding a repeated field whose every item the step appends to a list
/// of the accumulator (read by `get`, replaced by `set`) appends them all.
pub proof fn lemma_fold_repeated<A, T>(
    xs: Seq<T>,
    acc: A,
    step: spec_fn(A, FieldModel) -> Option<A>,
    mk: spec_fn(T) -> FieldModel,
    get: spec_fn(A) -> Seq<T>,
    set: spec_fn(A, Seq<T>) -> A,
)
    requires
        forall|k: int, a: A| 0 <= k < xs.len() ==> #[trigger] step(a, mk(xs[k])) == Some(set(a, get(a).push(xs[k]))),
        forall|a: A, l: Seq<T>| #[trigger] get(set(a, l)) == l,
        forall|a: A, l1: Seq<T>, l2: Seq<T>| #[trigger] set(set(a, l1), l2) == set(a, l2),
        forall|a: A| #[trigger] set(a, get(a)) == a,
    ensures
        fold_fields(xs.map_values(mk), acc, step) == Some(set(acc, get(acc) + xs)),
    decreases xs.len(),
{
    if xs.len() == 0 {
        assert(get(acc) + xs =~= get(acc));
    } else {
        let ys = xs.drop_last();
        let x = xs.last();
        assert(xs.map_values(mk) =~= ys.map_values(mk).push(mk(x)));
        lemma_fold_push(ys.map_values(mk), mk(x), acc, step);
        assert forall|k: int, a: A| 0 <= k < ys.len() implies #[trigger] step(a, mk(ys[k])) == Some(
            set(a, get(a).push(ys[k])),
        ) by {
            assert(ys[k] == xs[k]);
        }
        lemma_fold_repeated(ys, acc, step, mk, get, set);
        let mid = set(acc, get(acc) + ys);
        assert(step(mid, mk(xs[xs.len() - 1])) == Some(set(mid, get(mid).push(xs[xs.len() - 1]))));
        assert(get(mid) == get(acc) + ys);
        assert((get(acc) + ys).push(x) =~= get(acc) + xs);
        assert(set(mid, get(acc) + xs) == set(acc, get(acc) + xs));
    }
}

pub proof fn lemma_fields_bytes_concat(a: Seq<FieldModel>, b: Seq<FieldModel>)
    ensures
        fields_bytes(a + b) == fields_bytes(a) + fields_bytes(b),
    decreases a.len(),
{
    if a.len() == 0 {
        assert(a + b =~= b);
        assert(fields_bytes(a) + fields_bytes(b) =~= fields_bytes(b));
    } else {
        assert((a + b).drop_first() =~= a.drop_first() + b);
        lemma_fields_bytes_concat(a.drop_first(), b);
        assert(fields_bytes(a + b) =~= fields_bytes(a) + fields_bytes(b));
    }
}

/// Each field's bytes, and so what a length-delimited field carries, are
/// no longer than the bytes of all the fields.
pub proof fn lemma_fields_bytes_bound(fs: Seq<FieldModel>, k: int)
    requires
        0 <= k < fs.len(),
    ensures
        field_bytes(fs[k]).len() <= fields_bytes(fs).len(),
        fs[k].value matches FieldValueModel::Bytes(b) ==> b.len() <= fields_bytes(fs).len(),
    decreases fs.len(),
{
    lemma_field_bytes_len(fs[k]);
    if k > 0 {
        lemma_fields_bytes_bound(fs.drop_first(), k - 1);
    }
}

pub broadcast proof fn lemma_fields_bytes_push(fs: Seq<FieldModel>, f: FieldModel)
    ensures
        #[trigger] fields_bytes(fs.push(f)) == fields_bytes(fs) + field_bytes(f),
{
    lemma_fields_bytes_concat(fs, seq![f]);
    assert(fs + seq![f] =~= fs.push(f));
    assert(seq![f].drop_first() =~= Seq::<FieldModel>::empty());
    assert(seq![f][0] == f);
    assert(fields_bytes(Seq::<FieldModel>::empty()) == Seq::<u8>::empty());
    assert(fields_bytes(seq![f]) == field_bytes(f) + Seq::<u8>::empty());
    assert(fields_bytes(seq![f]) =~= field_bytes(f));
}

/// Appends the varint encoding of `v`.
pub fn write_varint(out: &mut Vec<u8>, v: u64)
    ensures
        final(out)@ == old(out)@ + varint_bytes(v as nat),
{
    let mut x: u64 = v;
    while x >= 128
        invariant
            old(out)@ + varint_bytes(v as nat) == out@ + varint_bytes(x as nat),
        decreases x,
    {
        let ghost before = out@;
        out.push((x % 128 + 128) as u8);
        proof {
            assert(varint_bytes(x as nat) == seq![(x % 128 + 128) as u8] + varint_bytes((x / 128) as nat));
            assert(before + varint_bytes(x as nat) =~= out@ + varint_bytes((x / 128) as nat));
        }
        x = x / 128;
    }
    let ghost before = out@;
    out.push(x as u8);
    proof {
        assert(before + varint_bytes(x as nat) =~= out@);
    }
}

fn write_key(out: &mut Vec<u8>, number: u64, wire: u64)
    requires
        1 <= number < 0x1000_0000_0000_0000,
        wire < 8,
    ensures
        final(out)@ == old(out)@ + varint_bytes((number * 8 + wire) as nat),
{
    write_varint(out, number * 8 + wire);
}

/// Appends bytes.
pub fn append_bytes(out: &mut Vec<u8>, b: &[u8])
    ensures
        final(out)@ == old(out)@ + b@,
{
    let mut i: usize = 0;
    while i < b.len()
        invariant
            i <= b.len(),
            out@ == old(out)@ + b@.take(i as int),
        decreases b.len() - i,
    {
        out.push(b[i]);
        i += 1;
        proof {
            assert(out@ =~= old(out)@ + b@.take(i as int));
        }
    }
    proof {
        assert(b@.take(b.len() as int) =~= b@);
    }
}

/// Appends a length-delimited field.
pub fn write_bytes_field(out: &mut Vec<u8>, number: u64, b: &[u8])
    requires
        1 <= number < 0x1000_0000_0000_0000,
    ensures
        final(out)@ == old(out)@ + field_bytes(
            FieldModel { number, value: FieldValueModel::Bytes(b@) },
        ),
{
    let ghost start = out@;
    write_key(out, number, 2);
    write_varint(out, b.len() as u64);
    append_bytes(out, b);
    proof {
        let f = FieldModel { number, value: FieldValueModel::Bytes(b@) };
        assert(key_of(f) == number * 8 + 2);
        assert(out@ =~= start + field_bytes(f));
    }
}

/// Appends a varint field.
pub fn write_varint_field(out: &mut Vec<u8>, number: u64, v: u64)
    requires
        1 <= number < 0x1000_0000_0000_0000,
    ensures
        final(out)@ == old(out)@ + field_bytes(
            FieldModel { number, value: FieldValueModel::Varint(v) },
        ),
{
    let ghost start = out@;
    write_key(out, number, 0);
    write_varint(out, v);
    proof {
        let f = FieldModel { number, value: FieldValueModel::Varint(v) };
        assert(key_of(f) == number * 8);
        assert(out@ =~= start + field_bytes(f));
    }
}

/// Appends a text field, as its UTF-8 bytes.
pub fn write_text_field(out: &mut Vec<u8>, number: u64, t: &String)
    requires
        1 <= number < 0x1000_0000_0000_0000,
    ensures
        final(out)@ == old(out)@ + field_bytes(
            FieldModel { number, value: FieldValueModel::Bytes(encode_utf8(t@)) },
        ),
{
    write_bytes_field(out, number, t.as_str().as_bytes());
}

} // verus!
