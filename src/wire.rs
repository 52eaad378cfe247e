//! Protocol buffer wire encoding: the few primitives that a pprof profile needs.
use vstd::prelude::*;

verus! {

/// The base-128 varint encoding of `v`: seven bits per byte, low bits first,
/// the high bit set on every byte but the last.
pub open spec fn varint(v: u64) -> Seq<u8>
    decreases v,
{
    if v < 128 {
        seq![v as u8]
    } else {
        seq![(v % 128 + 128) as u8] + varint((v / 128) as u64)
    }
}

/// The key of a field: its number and its wire type.
pub open spec fn field_key(field: u64, wire_type: u64) -> Seq<u8> {
    varint((field * 8 + wire_type) as u64)
}

/// A varint field; a zero value is left out, as proto3 does for scalars.
pub open spec fn uint_field(field: u64, v: u64) -> Seq<u8> {
    if v == 0 {
        Seq::empty()
    } else {
        field_key(field, 0) + varint(v)
    }
}

/// A signed varint field: the value as its two's complement bits.
pub open spec fn int_field(field: u64, v: i64) -> Seq<u8> {
    uint_field(field, v as u64)
}

/// A length-delimited field: key, length, then the bytes.
pub open spec fn bytes_field(field: u64, b: Seq<u8>) -> Seq<u8> {
    field_key(field, 2) + varint(b.len() as u64) + b
}

/// The varints of `vs`, one after another.
pub open spec fn varints(vs: Seq<u64>) -> Seq<u8>
    decreases vs.len(),
{
    if vs.len() == 0 {
        Seq::empty()
    } else {
        varints(vs.drop_last()) + varint(vs.last())
    }
}

/// A packed repeated varint field; left out when there is no value.
pub open spec fn packed_field(field: u64, vs: Seq<u64>) -> Seq<u8> {
    if vs.len() == 0 {
        Seq::empty()
    } else {
        bytes_field(field, varints(vs))
    }
}

pub proof fn lemma_varints_push(vs: Seq<u64>, v: u64)
    ensures
        varints(vs.push(v)) == varints(vs) + varint(v),
{
    assert(vs.push(v).drop_last() =~= vs);
}

/// Appends the varint encoding of `v` to `out`.
pub fn put_varint(out: &mut Vec<u8>, v: u64)
    ensures
        final(out)@ == old(out)@ + varint(v),
{
    let mut x: u64 = v;
    while x >= 128
        invariant
            out@ + varint(x) == old(out)@ + varint(v),
        decreases x,
    {
        out.push((x % 128 + 128) as u8);
        x = x / 128;
    }
    out.push(x as u8);
}

/// Appends a field key to `out`.
pub fn put_key(out: &mut Vec<u8>, field: u64, wire_type: u64)
    requires
        field <= 1000,
        wire_type < 8,
    ensures
        final(out)@ == old(out)@ + field_key(field, wire_type),
{
    put_varint(out, field * 8 + wire_type);
}

/// Appends a varint field to `out`, nothing when `v` is zero.
pub fn put_uint_field(out: &mut Vec<u8>, field: u64, v: u64)
    requires
        field <= 1000,
    ensures
        final(out)@ == old(out)@ + uint_field(field, v),
{
    if v != 0 {
        put_key(out, field, 0);
        put_varint(out, v);
        assert(out@ =~= old(out)@ + uint_field(field, v));
    } else {
        assert(out@ =~= old(out)@ + uint_field(field, v));
    }
}

/// Appends a signed varint field to `out`, nothing when `v` is zero.
pub fn put_int_field(out: &mut Vec<u8>, field: u64, v: i64)
    requires
        field <= 1000,
    ensures
        final(out)@ == old(out)@ + int_field(field, v),
{
    put_uint_field(out, field, v as u64);
}

/// Appends `b` to `out`, byte by byte.
pub fn put_raw(out: &mut Vec<u8>, b: &[u8])
    ensures
        final(out)@ == old(out)@ + b@,
{
    let mut i: usize = 0;
    while i < b.len()
        invariant
            i <= b@.len(),
            out@ == old(out)@ + b@.subrange(0, i as int),
        decreases b@.len() - i,
    {
        out.push(b[i]);
        i = i + 1;
        assert(out@ =~= old(out)@ + b@.subrange(0, i as int));
    }
    assert(b@.subrange(0, b@.len() as int) =~= b@);
}

/// Appends a length-delimited field holding `b` to `out`.
pub fn put_bytes_field(out: &mut Vec<u8>, field: u64, b: &[u8])
    requires
        field <= 1000,
    ensures
        final(out)@ == old(out)@ + bytes_field(field, b@),
{
    put_key(out, field, 2);
    put_varint(out, b.len() as u64);
    put_raw(out, b);
    assert(out@ =~= old(out)@ + bytes_field(field, b@));
}

/// Appends a packed repeated varint field holding `vs` to `out`, nothing when
/// `vs` is empty.
pub fn put_packed_field(out: &mut Vec<u8>, field: u64, vs: &[u64])
    requires
        field <= 1000,
    ensures
        final(out)@ == old(out)@ + packed_field(field, vs@),
{
    if vs.len() == 0 {
        assert(out@ =~= old(out)@ + packed_field(field, vs@));
        return;
    }
    let mut body: Vec<u8> = Vec::new();
    let mut i: usize = 0;
    while i < vs.len()
        invariant
            i <= vs@.len(),
            body@ == varints(vs@.subrange(0, i as int)),
        decreases vs@.len() - i,
    {
        proof {
            lemma_varints_push(vs@.subrange(0, i as int), vs@[i as int]);
            assert(vs@.subrange(0, i as int).push(vs@[i as int]) =~= vs@.subrange(0, i + 1));
        }
        put_varint(&mut body, vs[i]);
        i = i + 1;
    }
    assert(vs@.subrange(0, vs@.len() as int) =~= vs@);
    put_bytes_field(out, field, body.as_slice());
}

} // verus!
