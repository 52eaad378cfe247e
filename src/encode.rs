//! The pprof wire encoding of each record of a profile.
use vstd::prelude::*;
use crate::model::{Function, Label, Line, Location, LocationView, Sample, SampleView, StatsView};
use vstd::utf8::encode_utf8;
use crate::wire::{
    bytes_field, int_field, packed_field, uint_field, put_bytes_field, put_int_field,
    put_packed_field, put_uint_field,
};

verus! {

pub open spec fn label_bytes(l: Label) -> Seq<u8> {
    int_field(1, l.key) + int_field(3, l.num)
}

/// The labels of a sample, each as field 3 of the sample.
pub open spec fn labels_bytes(ls: Seq<Label>) -> Seq<u8>
    decreases ls.len(),
{
    if ls.len() == 0 {
        Seq::empty()
    } else {
        labels_bytes(ls.drop_last()) + bytes_field(3, label_bytes(ls.last()))
    }
}

/// The values of a sample as their two's complement bits.
pub open spec fn as_unsigned(vs: Seq<i64>) -> Seq<u64> {
    vs.map_values(|x: i64| x as u64)
}

pub open spec fn sample_bytes(s: SampleView) -> Seq<u8> {
    packed_field(1, s.location_id) + packed_field(2, as_unsigned(s.value)) + labels_bytes(s.label)
}

pub open spec fn line_bytes(l: Line) -> Seq<u8> {
    uint_field(1, l.function_id) + int_field(2, l.line)
}

/// The lines of a location, each as field 4 of the location.
pub open spec fn lines_bytes(ls: Seq<Line>) -> Seq<u8>
    decreases ls.len(),
{
    if ls.len() == 0 {
        Seq::empty()
    } else {
        lines_bytes(ls.drop_last()) + bytes_field(4, line_bytes(ls.last()))
    }
}

pub open spec fn location_bytes(l: LocationView) -> Seq<u8> {
    uint_field(1, l.id) + lines_bytes(l.line)
}

pub open spec fn function_bytes(f: Function) -> Seq<u8> {
    uint_field(1, f.id) + int_field(2, f.name) + int_field(4, f.filename)
}

pub open spec fn value_type_bytes(ty: i64, unit: i64) -> Seq<u8> {
    int_field(1, ty) + int_field(2, unit)
}

pub fn encode_value_type(ty: i64, unit: i64) -> (r: Vec<u8>)
    ensures
        r@ == value_type_bytes(ty, unit),
{
    let mut out: Vec<u8> = Vec::new();
    put_int_field(&mut out, 1, ty);
    put_int_field(&mut out, 2, unit);
    proof {
        assert(out@ =~= value_type_bytes(ty, unit));
    }
    out
}

pub fn encode_label(l: &Label) -> (r: Vec<u8>)
    ensures
        r@ == label_bytes(*l),
{
    let mut out: Vec<u8> = Vec::new();
    put_int_field(&mut out, 1, l.key);
    put_int_field(&mut out, 3, l.num);
    proof {
        assert(out@ =~= label_bytes(*l));
    }
    out
}

pub fn encode_line(l: &Line) -> (r: Vec<u8>)
    ensures
        r@ == line_bytes(*l),
{
    let mut out: Vec<u8> = Vec::new();
    put_uint_field(&mut out, 1, l.function_id);
    put_int_field(&mut out, 2, l.line);
    proof {
        assert(out@ =~= line_bytes(*l));
    }
    out
}

pub fn encode_function(f: &Function) -> (r: Vec<u8>)
    ensures
        r@ == function_bytes(*f),
{
    let mut out: Vec<u8> = Vec::new();
    put_uint_field(&mut out, 1, f.id);
    put_int_field(&mut out, 2, f.name);
    put_int_field(&mut out, 4, f.filename);
    proof {
        assert(out@ =~= function_bytes(*f));
    }
    out
}

pub fn encode_location(l: &Location) -> (r: Vec<u8>)
    ensures
        r@ == location_bytes(l@),
{
    let mut out: Vec<u8> = Vec::new();
    put_uint_field(&mut out, 1, l.id);
    let ghost start = out@;
    let mut i: usize = 0;
    while i < l.line.len()
        invariant
            i <= l.line@.len(),
            out@ == start + lines_bytes(l.line@.take(i as int)),
        decreases l.line@.len() - i,
    {
        let b = encode_line(&l.line[i]);
        put_bytes_field(&mut out, 4, b.as_slice());
        proof {
            assert(l.line@.take(i + 1).drop_last() =~= l.line@.take(i as int));
            assert(out@ =~= start + lines_bytes(l.line@.take(i + 1)));
        }
        i = i + 1;
    }
    proof {
        assert(l.line@.take(i as int) =~= l.line@);
        assert(out@ =~= location_bytes(l@));
    }
    out
}

pub fn encode_sample(s: &Sample) -> (r: Vec<u8>)
    ensures
        r@ == sample_bytes(s@),
{
    let mut out: Vec<u8> = Vec::new();
    put_packed_field(&mut out, 1, s.location_id.as_slice());
    let mut values: Vec<u64> = Vec::new();
    let mut i: usize = 0;
    while i < s.value.len()
        invariant
            i <= s.value@.len(),
            values@ == as_unsigned(s.value@.take(i as int)),
        decreases s.value@.len() - i,
    {
        values.push(s.value[i] as u64);
        i = i + 1;
        proof {
            assert(values@ =~= as_unsigned(s.value@.take(i as int)));
        }
    }
    proof {
        assert(s.value@.take(i as int) =~= s.value@);
    }
    put_packed_field(&mut out, 2, values.as_slice());
    let ghost start = out@;
    let mut j: usize = 0;
    while j < s.label.len()
        invariant
            j <= s.label@.len(),
            out@ == start + labels_bytes(s.label@.take(j as int)),
        decreases s.label@.len() - j,
    {
        let b = encode_label(&s.label[j]);
        put_bytes_field(&mut out, 3, b.as_slice());
        proof {
            assert(s.label@.take(j + 1).drop_last() =~= s.label@.take(j as int));
            assert(out@ =~= start + labels_bytes(s.label@.take(j + 1)));
        }
        j = j + 1;
    }
    proof {
        assert(s.label@.take(j as int) =~= s.label@);
        assert(out@ =~= sample_bytes(s@));
    }
    out
}

/// The samples of a profile, each as field 2.
pub open spec fn samples_bytes(ss: Seq<SampleView>) -> Seq<u8>
    decreases ss.len(),
{
    if ss.len() == 0 {
        Seq::empty()
    } else {
        samples_bytes(ss.drop_last()) + bytes_field(2, sample_bytes(ss.last()))
    }
}

/// The locations of a profile, each as field 4.
pub open spec fn locations_bytes(ls: Seq<LocationView>) -> Seq<u8>
    decreases ls.len(),
{
    if ls.len() == 0 {
        Seq::empty()
    } else {
        locations_bytes(ls.drop_last()) + bytes_field(4, location_bytes(ls.last()))
    }
}

/// The functions of a profile, each as field 5.
pub open spec fn functions_bytes(fs: Seq<Function>) -> Seq<u8>
    decreases fs.len(),
{
    if fs.len() == 0 {
        Seq::empty()
    } else {
        functions_bytes(fs.drop_last()) + bytes_field(5, function_bytes(fs.last()))
    }
}

/// The string table of a profile, each string in UTF-8 as field 6.
pub open spec fn strings_bytes(ss: Seq<Seq<char>>) -> Seq<u8>
    decreases ss.len(),
{
    if ss.len() == 0 {
        Seq::empty()
    } else {
        strings_bytes(ss.drop_last()) + bytes_field(6, encode_utf8(ss.last()))
    }
}

/// The encoded profile: its sample type (string indices 1 and 2, "wall" in
/// "ms"), then samples, locations, functions and strings, in field order.
pub open spec fn profile_bytes(v: StatsView) -> Seq<u8> {
    bytes_field(1, value_type_bytes(1, 2)) + samples_bytes(v.samples) + locations_bytes(
        v.locations,
    ) + functions_bytes(v.functions) + strings_bytes(v.strings)
}

} // verus!
