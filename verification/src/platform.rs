//! The names under which each operating system knows a channel's shared
//! segment.
use vstd::prelude::*;
use vstd::string::StringExecFns;

verus! {

broadcast use {vstd::string::axiom_spec_iter, vstd::string::next_postcondition};

/// Whether a name starts with '/'.
pub open spec fn starts_with_slash(name: Seq<char>) -> bool {
    name.len() > 0 && name[0] == '/'
}

/// The POSIX shared-memory name of the channel `name`: the name itself where
/// it already starts with '/', else the name behind "/kren_".
pub fn make_shm_name(name: &str) -> (full: String)
    ensures
        full@ == (if starts_with_slash(name@) {
            name@
        } else {
            "/kren_"@ + name@
        }),
        full@ == (if name@.len() > 0 && name@[0] == '/' {
            name@
        } else {
            "/kren_"@ + name@
        }),
{
    let mut chars = name.chars();
    let first = chars.next();
    let starts = match first {
        Some(c) => c == '/',
        None => false,
    };
    if starts {
        String::from_str(name)
    } else {
        String::from_str("/kren_").concat(name)
    }
}

/// The UTF-16 code units of one character: one unit below 0x10000, else a
/// surrogate pair.
pub open spec fn utf16_units(c: char) -> Seq<u16> {
    let v = c as u32;
    if v < 0x10000 {
        seq![v as u16]
    } else {
        let w = (v - 0x10000) as u32;
        seq![(0xD800 + (w >> 10u32)) as u16, (0xDC00 + (w & 0x3FFu32)) as u16]
    }
}

/// The UTF-16 code units of a string.
pub open spec fn utf16(s: Seq<char>) -> Seq<u16>
    decreases s.len(),
{
    if s.len() == 0 {
        Seq::empty()
    } else {
        utf16(s.drop_last()) + utf16_units(s.last())
    }
}

/// The UTF-16 code units of one character.
fn char_utf16(c: char) -> (units: Vec<u16>)
    ensures
        units@ == utf16_units(c),
{
    let v = c as u32;
    let mut units: Vec<u16> = Vec::new();
    if v < 0x10000 {
        units.push(v as u16);
    } else {
        let w: u32 = v - 0x10000;
        assert(w < 0x100000);
        assert((w >> 10u32) < 0x400u32) by (bit_vector)
            requires
                w < 0x100000u32,
        ;
        assert((w & 0x3FFu32) < 0x400u32) by (bit_vector);
        units.push((0xD800 + (w >> 10)) as u16);
        units.push((0xDC00 + (w & 0x3FF)) as u16);
    }
    proof {
        assert(units@ =~= utf16_units(c));
    }
    units
}

/// The Windows file-mapping name of the channel `name`, "Local\KREN_" and the
/// name, as NUL-terminated UTF-16.
pub fn encode_name(name: &str) -> (encoded: Vec<u16>)
    ensures
        encoded@ == utf16("Local\\KREN_"@ + name@).push(0u16),
{
    let full = String::from_str("Local\\KREN_").concat(name);
    let ghost s = full@;
    let mut encoded: Vec<u16> = Vec::new();
    for c in it: full.as_str().chars()
        invariant
            it.seq() == s,
            encoded@ == utf16(s.take(it.index() as int)),
    {
        let mut units = char_utf16(c);
        proof {
            let k = it.index() as int;
            assert(s.take(k + 1).drop_last() =~= s.take(k));
            assert(s.take(k + 1).last() == s[k]);
        }
        encoded.append(&mut units);
    }
    proof {
        assert(s.take(s.len() as int) =~= s);
    }
    encoded.push(0);
    encoded
}


/// UTF-16 encoding is undone by decoding: a character below 0x10000 is the
/// one unit of the same value; any other becomes a high surrogate
/// (0xD800..0xDC00) and a low surrogate (0xDC00..0xE000) from which
/// `0x10000 + (high - 0xD800) * 0x400 + (low - 0xDC00)` gives it back.
pub proof fn lemma_utf16_units_decode(c: char)
    ensures
        (c as u32) < 0x10000 ==> utf16_units(c).len() == 1 && utf16_units(c)[0] as u32 == c as u32,
        (c as u32) >= 0x10000 ==> {
            let u = utf16_units(c);
            &&& u.len() == 2
            &&& 0xD800 <= u[0] < 0xDC00
            &&& 0xDC00 <= u[1] < 0xE000
            &&& 0x10000 + (u[0] - 0xD800) * 0x400 + (u[1] - 0xDC00) == c as u32
        },
{
    let v = c as u32;
    if v >= 0x10000 {
        assert(v <= 0x10FFFF);
        let w = (v - 0x10000) as u32;
        assert(w < 0x100000);
        assert((w >> 10u32) < 0x400u32 && (w & 0x3FFu32) < 0x400u32 && (w >> 10u32) * 0x400u32
            + (w & 0x3FFu32) == w) by (bit_vector)
            requires
                w < 0x100000u32,
        ;
    }
}

/// The UTF-16 encoding of two strings one after the other is the encoding of
/// the first, then that of the second.
pub proof fn lemma_utf16_concat(a: Seq<char>, b: Seq<char>)
    ensures
        utf16(a + b) == utf16(a) + utf16(b),
    decreases b.len(),
{
    if b.len() == 0 {
        assert(a + b =~= a);
        assert(utf16(a) + Seq::<u16>::empty() =~= utf16(a));
    } else {
        assert((a + b).drop_last() =~= a + b.drop_last());
        assert((a + b).last() == b.last());
        lemma_utf16_concat(a, b.drop_last());
        assert(utf16(a) + utf16(b.drop_last()) + utf16_units(b.last()) =~= utf16(a) + (utf16(
            b.drop_last(),
        ) + utf16_units(b.last())));
    }
}


/// The empty string has no code units, and a one-character string has those
/// of its character.
pub proof fn lemma_utf16_base(c: char)
    ensures
        utf16(Seq::<char>::empty()) == Seq::<u16>::empty(),
        utf16(seq![c]) == utf16_units(c),
{
    assert(seq![c].drop_last() =~= Seq::<char>::empty());
    assert(Seq::<u16>::empty() + utf16_units(c) =~= utf16_units(c));
}

} // verus!
