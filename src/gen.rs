use vstd::prelude::*;
use crate::rng::{SeededRng, StreamPos};

verus! {

/// Bytes of an encoded word.
pub const WORD_BYTES: usize = 32;

/// Bytes of an address.
pub const ADDRESS_BYTES: u8 = 20;

/// The type of a parameter of a test function.
#[derive(Debug, Clone, Copy, PartialEq, Eq, Structural)]
pub enum ParamKind {
    /// An unsigned integer of the given number of bytes (1 to 32).
    Uint(u8),
    /// An address.
    Address,
    /// A boolean.
    Bool,
    /// A byte string of any length.
    Bytes,
}

/// The contents of a list of byte vectors.
pub open spec fn views(vs: Seq<Vec<u8>>) -> Seq<Seq<u8>> {
    vs.map_values(|v: Vec<u8>| v@)
}

/// Whether a parameter type is well formed.
pub open spec fn kind_ok(k: ParamKind) -> bool {
    match k {
        ParamKind::Uint(w) => 1 <= w <= 32,
        _ => true,
    }
}

/// Byte `k` (from the highest) of a 64-bit word.
pub open spec fn word_byte(w: u64, k: int) -> u8 {
    (w >> ((8 * (7 - k)) as u64)) as u8
}

/// The 32 bytes that four stream words spell.
pub open spec fn word_of_words(ws: Seq<u64>) -> Seq<u8> {
    Seq::new(32, |i: int| word_byte(ws[i / 8], i % 8))
}

/// `s` with all but its last `width` bytes cleared.
pub open spec fn low_bytes(s: Seq<u8>, width: nat) -> Seq<u8> {
    Seq::new(32, |i: int| if i < 32 - width { 0u8 } else { s[i] })
}

/// The boundary values of an integer type: 0, 1, its largest value and one below it.
pub open spec fn boundary_word(width: nat, choice: u64) -> Seq<u8> {
    Seq::new(
        32,
        |i: int|
            if choice == 0 {
                0u8
            } else if choice == 1 {
                if i == 31 { 1u8 } else { 0u8 }
            } else if i < 32 - width {
                0u8
            } else if choice == 3 && i == 31 {
                0xfeu8
            } else {
                0xffu8
            },
    )
}

/// A word holding a small number.
pub open spec fn small_word(b: u8) -> Seq<u8> {
    Seq::new(32, |i: int| if i == 31 { b } else { 0u8 })
}

/// The length drawn for a byte string: mostly below 8, sometimes below 64.
pub open spec fn bytes_len(w: u64) -> nat {
    if w % 8 != 0 {
        ((w / 8) % 8) as nat
    } else {
        ((w / 8) % 64) as nat
    }
}

/// The value drawn for a parameter of kind `k` at stream position `s`, and the
/// stream after it. Integers favour their boundary values, addresses those of
/// the pool, byte strings short lengths.
pub open spec fn gen_value(k: ParamKind, pool: Seq<Seq<u8>>, s: StreamPos) -> (Seq<u8>, StreamPos) {
    let w0 = s.word();
    match k {
        ParamKind::Uint(w) => if w0 % 4 == 0 {
            (boundary_word(w as nat, (w0 / 4) % 4), s.next())
        } else {
            (low_bytes(word_of_words(s.next().words(4)), w as nat), s.next().skip(4))
        },
        ParamKind::Address => if w0 % 4 == 0 && pool.len() > 0 {
            (pool[((w0 / 4) % (pool.len() as u64)) as int], s.next())
        } else {
            (low_bytes(word_of_words(s.next().words(4)), ADDRESS_BYTES as nat), s.next().skip(4))
        },
        ParamKind::Bool => (small_word((w0 % 2) as u8), s.next()),
        ParamKind::Bytes => {
            let n = bytes_len(w0);
            let ws = s.next().words(n);
            (Seq::new(n, |i: int| ws[i] as u8), s.next().skip(n))
        },
    }
}

/// The values drawn for a list of parameters, in order, and the stream after them.
pub open spec fn gen_args(kinds: Seq<ParamKind>, pool: Seq<Seq<u8>>, s: StreamPos) -> (Seq<Seq<u8>>, StreamPos)
    decreases kinds.len(),
{
    if kinds.len() == 0 {
        (Seq::empty(), s)
    } else {
        let (vs, s1) = gen_args(kinds.drop_last(), pool, s);
        let (v, s2) = gen_value(kinds.last(), pool, s1);
        (vs.push(v), s2)
    }
}

fn word_from_words(ws: &Vec<u64>, width: u8) -> (r: Vec<u8>)
    requires
        ws@.len() == 4,
        width <= 32,
    ensures
        r@ == low_bytes(word_of_words(ws@), width as nat),
{
    let mut out: Vec<u8> = Vec::new();
    let cut: usize = 32 - width as usize;
    let mut i: usize = 0;
    while i < 32
        invariant
            i <= 32,
            ws@.len() == 4,
            cut == 32 - width,
            out@.len() == i,
            forall|j: int| 0 <= j < i ==> out@[j] == low_bytes(word_of_words(ws@), width as nat)[j],
        decreases 32 - i,
    {
        if i < cut {
            out.push(0);
        } else {
            let k: usize = i % 8;
            let sh: u64 = (8 * (7 - k)) as u64;
            out.push((ws[i / 8] >> sh) as u8);
        }
        i = i + 1;
    }
    assert(out@ =~= low_bytes(word_of_words(ws@), width as nat));
    out
}

fn boundary(width: u8, choice: u64) -> (r: Vec<u8>)
    requires
        width <= 32,
        choice < 4,
    ensures
        r@ == boundary_word(width as nat, choice),
{
    let mut out: Vec<u8> = Vec::new();
    let cut: usize = 32 - width as usize;
    let mut i: usize = 0;
    while i < 32
        invariant
            i <= 32,
            cut == 32 - width,
            out@.len() == i,
            forall|j: int| 0 <= j < i ==> out@[j] == boundary_word(width as nat, choice)[j],
        decreases 32 - i,
    {
        let b: u8 = if choice == 0 {
            0
        } else if choice == 1 {
            if i == 31 { 1 } else { 0 }
        } else if i < cut {
            0
        } else if choice == 3 && i == 31 {
            0xfe
        } else {
            0xff
        };
        out.push(b);
        i = i + 1;
    }
    assert(out@ =~= boundary_word(width as nat, choice));
    out
}

fn small(b: u8) -> (r: Vec<u8>)
    ensures
        r@ == small_word(b),
{
    let mut out: Vec<u8> = Vec::new();
    let mut i: usize = 0;
    while i < 32
        invariant
            i <= 32,
            out@.len() == i,
            forall|j: int| 0 <= j < i ==> out@[j] == small_word(b)[j],
        decreases 32 - i,
    {
        out.push(if i == 31 { b } else { 0 });
        i = i + 1;
    }
    assert(out@ =~= small_word(b));
    out
}

/// Draws a value for a parameter of kind `k`.
pub fn generate_value(k: ParamKind, pool: &Vec<Vec<u8>>, rng: &mut SeededRng) -> (r: Vec<u8>)
    requires
        old(rng).wf(),
        kind_ok(k),
    ensures
        final(rng).wf(),
        (r@, final(rng)@) == gen_value(k, views(pool@), old(rng)@),
{
    let ghost s = rng@;
    let w0 = rng.next_u64();
    match k {
        ParamKind::Uint(w) => {
            if w0 % 4 == 0 {
                boundary(w, (w0 / 4) % 4)
            } else {
                let ws = rng.next_words(4);
                word_from_words(&ws, w)
            }
        },
        ParamKind::Address => {
            if w0 % 4 == 0 && pool.len() > 0 {
                let i = ((w0 / 4) % (pool.len() as u64)) as usize;
                let r = pool[i].clone();
                assert(r@ == views(pool@)[i as int]);
                r
            } else {
                let ws = rng.next_words(4);
                word_from_words(&ws, ADDRESS_BYTES)
            }
        },
        ParamKind::Bool => small((w0 % 2) as u8),
        ParamKind::Bytes => {
            let n: usize = if w0 % 8 != 0 { ((w0 / 8) % 8) as usize } else { ((w0 / 8) % 64) as usize };
            let ws = rng.next_words(n);
            let mut out: Vec<u8> = Vec::new();
            let mut i: usize = 0;
            while i < n
                invariant
                    i <= n,
                    ws@.len() == n,
                    out@.len() == i,
                    forall|j: int| 0 <= j < i ==> out@[j] == ws@[j] as u8,
                decreases n - i,
            {
                out.push(ws[i] as u8);
                i = i + 1;
            }
            assert(out@ =~= Seq::new(n as nat, |i: int| ws@[i] as u8));
            out
        },
    }
}

/// Draws one value for each parameter, in order.
pub fn generate_args(kinds: &Vec<ParamKind>, pool: &Vec<Vec<u8>>, rng: &mut SeededRng) -> (r: Vec<Vec<u8>>)
    requires
        old(rng).wf(),
        forall|i: int| 0 <= i < kinds@.len() ==> kind_ok(#[trigger] kinds@[i]),
    ensures
        final(rng).wf(),
        (views(r@), final(rng)@) == gen_args(kinds@, views(pool@), old(rng)@),
{
    let ghost s0 = rng@;
    let mut out: Vec<Vec<u8>> = Vec::new();
    let mut i: usize = 0;
    while i < kinds.len()
        invariant
            rng.wf(),
            i <= kinds@.len(),
            forall|j: int| 0 <= j < kinds@.len() ==> kind_ok(#[trigger] kinds@[j]),
            (views(out@), rng@) == gen_args(kinds@.take(i as int), views(pool@), s0),
        decreases kinds@.len() - i,
    {
        let ghost prev = out@;
        let v = generate_value(kinds[i], pool, rng);
        out.push(v);
        proof {
            let t = kinds@.take(i + 1);
            assert(t.drop_last() =~= kinds@.take(i as int));
            assert(t.last() == kinds@[i as int]);
            assert(out@ =~= prev.push(v));
            assert(views(out@) =~= views(prev).push(v@));
        }
        i = i + 1;
    }
    assert(kinds@.take(kinds@.len() as int) =~= kinds@);
    out
}

} // verus!
