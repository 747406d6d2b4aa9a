//! The persistence codec: a compact binary encoding of the whole store.
//!
//! Layout, all integers little-endian: a 64-bit entry count, then per
//! entry a 64-bit label byte-length, the label's bytes, and a 20-byte
//! record (width, height as 32-bit; x, y as 32-bit two's complement;
//! maximized, visible, decorated, fullscreen as one byte each, strictly
//! 0 or 1).  Decoding is exact: trailing bytes, malformed flag bytes or
//! duplicate labels are rejected, so a decoded store re-encodes to the
//! very bytes it was read from.

use vstd::prelude::*;

use vstd::arithmetic::div_mod::lemma_fundamental_div_mod;
use vstd::arithmetic::div_mod::lemma_fundamental_div_mod_converse;
use vstd::arithmetic::div_mod::lemma_mod_bound;

use vstd::slice::slice_to_vec;

use crate::metadata::WindowMetadata;
use crate::store::StoreModel;
use crate::store::WindowStore;
use crate::store::lemma_push_entry;
use crate::store::wf_store;

verus! {

/// `256^w`: how many values `w` little-endian bytes can carry.
pub open spec fn pow256(w: nat) -> int
    decreases w,
{
    if w == 0 {
        1
    } else {
        256 * pow256((w - 1) as nat)
    }
}

/// The `w` little-endian bytes of the value `v`.
pub open spec fn le_enc(v: int, w: nat) -> Seq<u8>
    decreases w,
{
    if w == 0 {
        Seq::empty()
    } else {
        seq![(v % 256) as u8] + le_enc(v / 256, (w - 1) as nat)
    }
}

/// The value carried by the little-endian bytes `b`.
pub open spec fn le_val(b: Seq<u8>) -> int
    decreases b.len(),
{
    if b.len() == 0 {
        0
    } else {
        b[0] + 256 * le_val(b.drop_first())
    }
}

/// The 32 bits of `x` as a nonnegative value (two's complement).
pub open spec fn i32_bits(x: i32) -> int {
    if x >= 0 {
        x as int
    } else {
        x as int + 0x1_0000_0000
    }
}

/// The `i32` whose 32 bits carry the value `v` (two's complement).
pub open spec fn i32_from_bits(v: int) -> i32 {
    if v < 0x8000_0000 {
        v as i32
    } else {
        (v - 0x1_0000_0000) as i32
    }
}

/// A flag byte: strictly 0 or 1.
pub open spec fn is_bool_byte(x: u8) -> bool {
    x == 0 || x == 1
}

/// The single flag byte of `b`.
pub open spec fn enc_bool(b: bool) -> Seq<u8> {
    seq![if b {
        1u8
    } else {
        0u8
    }]
}

/// The 20-byte encoding of one record.
pub open spec fn enc_meta(m: WindowMetadata) -> Seq<u8> {
    le_enc(m.width as int, 4) + le_enc(m.height as int, 4) + le_enc(i32_bits(m.x), 4) + le_enc(
        i32_bits(m.y),
        4,
    ) + enc_bool(m.maximized) + enc_bool(m.visible) + enc_bool(m.decorated) + enc_bool(m.fullscreen)
}

/// Decode a 20-byte record; fails on a flag byte other than 0 or 1.
pub open spec fn dec_meta(b: Seq<u8>) -> Option<WindowMetadata> {
    if is_bool_byte(b[16]) && is_bool_byte(b[17]) && is_bool_byte(b[18]) && is_bool_byte(b[19]) {
        Some(
            WindowMetadata {
                width: le_val(b.subrange(0, 4)) as u32,
                height: le_val(b.subrange(4, 8)) as u32,
                x: i32_from_bits(le_val(b.subrange(8, 12))),
                y: i32_from_bits(le_val(b.subrange(12, 16))),
                maximized: b[16] == 1,
                visible: b[17] == 1,
                decorated: b[18] == 1,
                fullscreen: b[19] == 1,
            },
        )
    } else {
        None
    }
}

/// The encoding of one entry: label length, label bytes, record.
pub open spec fn enc_entry(e: (Seq<u8>, WindowMetadata)) -> Seq<u8> {
    le_enc(e.0.len() as int, 8) + e.0 + enc_meta(e.1)
}

/// The back-to-back encodings of the entries of `v`, in store order.
pub open spec fn enc_entries(v: StoreModel) -> Seq<u8>
    decreases v.len(),
{
    if v.len() == 0 {
        Seq::empty()
    } else {
        enc_entry(v[0]) + enc_entries(v.drop_first())
    }
}

/// The encoding of a whole store: entry count, then the entries.
pub open spec fn spec_encode(v: StoreModel) -> Seq<u8> {
    le_enc(v.len() as int, 8) + enc_entries(v)
}

/// Decode exactly `n` entries from all of `b`.
pub open spec fn dec_entries(b: Seq<u8>, n: int) -> Option<StoreModel>
    decreases n,
{
    if n <= 0 {
        if n == 0 && b.len() == 0 {
            Some(Seq::empty())
        } else {
            None
        }
    } else if b.len() < 8 {
        None
    } else {
        let klen = le_val(b.subrange(0, 8));
        if b.len() < 28 + klen {
            None
        } else {
            let label = b.subrange(8, 8 + klen);
            match dec_meta(b.subrange(8 + klen, 28 + klen)) {
                Some(m) => match dec_entries(b.skip(28 + klen), n - 1) {
                    Some(rest) => Some(seq![(label, m)] + rest),
                    None => None,
                },
                None => None,
            }
        }
    }
}

/// Decode a whole store; fails unless the bytes are exactly the
/// encoding of a well-formed store.
pub open spec fn spec_decode(b: Seq<u8>) -> Option<StoreModel> {
    if b.len() < 8 {
        None
    } else {
        match dec_entries(b.skip(8), le_val(b.subrange(0, 8))) {
            Some(v) => if wf_store(v) {
                Some(v)
            } else {
                None
            },
            None => None,
        }
    }
}

proof fn lemma_pow256_pos(w: nat)
    ensures
        pow256(w) >= 1,
    decreases w,
{
    if w > 0 {
        lemma_pow256_pos((w - 1) as nat);
    }
}

proof fn lemma_pow256_vals()
    ensures
        pow256(4) == 0x1_0000_0000,
        pow256(8) == 0x1_0000_0000_0000_0000,
{
    assert(pow256(0) == 1);
    assert(pow256(1) == 256);
    assert(pow256(2) == 0x1_0000);
    assert(pow256(3) == 0x100_0000);
    assert(pow256(4) == 0x1_0000_0000);
    assert(pow256(5) == 0x100_0000_0000);
    assert(pow256(6) == 0x1_0000_0000_0000);
    assert(pow256(7) == 0x100_0000_0000_0000);
    assert(pow256(8) == 0x1_0000_0000_0000_0000);
}

/// Splitting off the low byte of a value below `256 * p`.
proof fn lemma_div256_bound(v: int, p: int)
    requires
        0 <= v < 256 * p,
        p >= 1,
    ensures
        0 <= v / 256 < p,
        0 <= v % 256 < 256,
        v == 256 * (v / 256) + v % 256,
{
    lemma_fundamental_div_mod(v, 256);
    lemma_mod_bound(v, 256);
    if v / 256 >= p {
        assert(256 * (v / 256) >= 256 * p);
    }
    if v / 256 < 0 {
        assert(256 * (v / 256) <= -256);
    }
}

proof fn lemma_le_enc_len(v: int, w: nat)
    ensures
        le_enc(v, w).len() == w,
    decreases w,
{
    if w > 0 {
        lemma_le_enc_len(v / 256, (w - 1) as nat);
    }
}

/// Round trip: the bytes of `v` carry the value `v` again.
proof fn lemma_le_val_enc(v: int, w: nat)
    requires
        0 <= v < pow256(w),
    ensures
        le_val(le_enc(v, w)) == v,
    decreases w,
{
    if w == 0 {
    } else {
        lemma_pow256_pos((w - 1) as nat);
        lemma_div256_bound(v, pow256((w - 1) as nat));
        let tail = le_enc(v / 256, (w - 1) as nat);
        assert((seq![(v % 256) as u8] + tail).drop_first() =~= tail);
        lemma_le_val_enc(v / 256, (w - 1) as nat);
    }
}

/// Round trip: encoding the value carried by `b` gives back `b`.
proof fn lemma_le_enc_val(b: Seq<u8>)
    ensures
        0 <= le_val(b) < pow256(b.len()),
        le_enc(le_val(b), b.len()) == b,
    decreases b.len(),
{
    if b.len() == 0 {
        assert(le_enc(0, 0) =~= b);
    } else {
        let t = b.drop_first();
        lemma_le_enc_val(t);
        let r = le_val(t);
        let v = b[0] + 256 * r;
        assert(0 <= v < pow256(b.len())) by {
            assert(256 * r <= 256 * (pow256(t.len()) - 1));
        }
        lemma_fundamental_div_mod_converse(v, 256, r, b[0] as int);
        assert(le_enc(v, b.len()) =~= seq![(v % 256) as u8] + le_enc(v / 256, t.len()));
        assert((v % 256) as u8 == b[0]);
        assert(le_enc(v, b.len()) =~= b);
    }
}

proof fn lemma_i32_bits(x: i32)
    ensures
        0 <= i32_bits(x) < pow256(4),
        i32_from_bits(i32_bits(x)) == x,
{
    lemma_pow256_vals();
}

proof fn lemma_i32_from_bits(v: int)
    requires
        0 <= v < pow256(4),
    ensures
        i32_bits(i32_from_bits(v)) == v,
{
    lemma_pow256_vals();
}

proof fn lemma_enc_meta_len(m: WindowMetadata)
    ensures
        enc_meta(m).len() == 20,
{
    lemma_le_enc_len(m.width as int, 4);
    lemma_le_enc_len(m.height as int, 4);
    lemma_le_enc_len(i32_bits(m.x), 4);
    lemma_le_enc_len(i32_bits(m.y), 4);
}

/// Round trip: a record's 20 bytes decode to the record again.
proof fn lemma_dec_enc_meta(m: WindowMetadata)
    ensures
        enc_meta(m).len() == 20,
        dec_meta(enc_meta(m)) == Some(m),
{
    lemma_enc_meta_len(m);
    let b = enc_meta(m);
    lemma_pow256_vals();
    lemma_le_enc_len(m.width as int, 4);
    lemma_le_enc_len(m.height as int, 4);
    lemma_le_enc_len(i32_bits(m.x), 4);
    lemma_le_enc_len(i32_bits(m.y), 4);
    assert(b.subrange(0, 4) =~= le_enc(m.width as int, 4));
    assert(b.subrange(4, 8) =~= le_enc(m.height as int, 4));
    assert(b.subrange(8, 12) =~= le_enc(i32_bits(m.x), 4));
    assert(b.subrange(12, 16) =~= le_enc(i32_bits(m.y), 4));
    lemma_le_val_enc(m.width as int, 4);
    lemma_le_val_enc(m.height as int, 4);
    lemma_i32_bits(m.x);
    lemma_i32_bits(m.y);
    lemma_le_val_enc(i32_bits(m.x), 4);
    lemma_le_val_enc(i32_bits(m.y), 4);
    assert(b[16] == (if m.maximized {
        1u8
    } else {
        0u8
    }));
    assert(b[17] == (if m.visible {
        1u8
    } else {
        0u8
    }));
    assert(b[18] == (if m.decorated {
        1u8
    } else {
        0u8
    }));
    assert(b[19] == (if m.fullscreen {
        1u8
    } else {
        0u8
    }));
}

/// Round trip: re-encoding a decoded record gives the same 20 bytes.
proof fn lemma_enc_dec_meta(b: Seq<u8>)
    requires
        b.len() == 20,
        dec_meta(b) is Some,
    ensures
        enc_meta(dec_meta(b).unwrap()) == b,
{
    let m = dec_meta(b).unwrap();
    lemma_pow256_vals();
    lemma_le_enc_val(b.subrange(0, 4));
    lemma_le_enc_val(b.subrange(4, 8));
    lemma_le_enc_val(b.subrange(8, 12));
    lemma_le_enc_val(b.subrange(12, 16));
    lemma_i32_from_bits(le_val(b.subrange(8, 12)));
    lemma_i32_from_bits(le_val(b.subrange(12, 16)));
    assert(m.width as int == le_val(b.subrange(0, 4)));
    assert(m.height as int == le_val(b.subrange(4, 8)));
    assert(i32_bits(m.x) == le_val(b.subrange(8, 12)));
    assert(i32_bits(m.y) == le_val(b.subrange(12, 16)));
    assert(le_enc(m.width as int, 4) == b.subrange(0, 4));
    assert(le_enc(m.height as int, 4) == b.subrange(4, 8));
    assert(le_enc(i32_bits(m.x), 4) == b.subrange(8, 12));
    assert(le_enc(i32_bits(m.y), 4) == b.subrange(12, 16));
    assert(enc_bool(m.maximized) =~= seq![b[16]]);
    assert(enc_bool(m.visible) =~= seq![b[17]]);
    assert(enc_bool(m.decorated) =~= seq![b[18]]);
    assert(enc_bool(m.fullscreen) =~= seq![b[19]]);
    assert(enc_meta(m) =~= b);
}

/// Round trip: the encoding of `v`'s entries decodes to `v` again.
proof fn lemma_dec_enc_entries(v: StoreModel)
    requires
        forall|i: int| 0 <= i < v.len() ==> #[trigger] v[i].0.len() <= u64::MAX,
    ensures
        dec_entries(enc_entries(v), v.len() as int) == Some(v),
    decreases v.len(),
{
    lemma_pow256_vals();
    if v.len() == 0 {
    } else {
        let e = v[0];
        let rest = v.drop_first();
        let klen = e.0.len() as int;
        let b = enc_entries(v);
        lemma_le_enc_len(klen, 8);
        lemma_enc_meta_len(e.1);
        lemma_le_enc_len(rest.len() as int, 8);
        assert(b == enc_entry(e) + enc_entries(rest));
        assert(b.len() == 28 + klen + enc_entries(rest).len());
        assert(b.subrange(0, 8) =~= le_enc(klen, 8));
        lemma_le_val_enc(klen, 8);
        assert(le_val(b.subrange(0, 8)) == klen);
        assert(b.subrange(8, 8 + klen) =~= e.0);
        assert(b.subrange(8 + klen, 28 + klen) =~= enc_meta(e.1));
        lemma_dec_enc_meta(e.1);
        assert(b.skip(28 + klen) =~= enc_entries(rest));
        assert(forall|i: int| 0 <= i < rest.len() ==> #[trigger] rest[i].0.len() <= u64::MAX)
            by {
            assert(forall|i: int| 0 <= i < rest.len() ==> rest[i] == v[i + 1]);
        }
        lemma_dec_enc_entries(rest);
        assert(dec_entries(b, v.len() as int) == Some(seq![(e.0, e.1)] + rest));
        assert(seq![(e.0, e.1)] + rest =~= v);
    }
}

/// Round trip: re-encoding `n` decoded entries gives the same bytes.
proof fn lemma_enc_dec_entries(b: Seq<u8>, n: int)
    requires
        dec_entries(b, n) is Some,
    ensures
        ({
            let v = dec_entries(b, n).unwrap();
            &&& enc_entries(v) == b
            &&& v.len() == n
            &&& forall|i: int| 0 <= i < v.len() ==> #[trigger] v[i].0.len() <= u64::MAX
        }),
    decreases n,
{
    lemma_pow256_vals();
    if n <= 0 {
        assert(enc_entries(Seq::empty()) =~= b);
    } else {
        let klen = le_val(b.subrange(0, 8));
        let label = b.subrange(8, 8 + klen);
        let m = dec_meta(b.subrange(8 + klen, 28 + klen)).unwrap();
        let rest = dec_entries(b.skip(28 + klen), n - 1).unwrap();
        let v = dec_entries(b, n).unwrap();
        assert(v == seq![(label, m)] + rest);
        lemma_le_enc_val(b.subrange(0, 8));
        lemma_enc_dec_meta(b.subrange(8 + klen, 28 + klen));
        lemma_enc_dec_entries(b.skip(28 + klen), n - 1);
        assert(v[0] == (label, m));
        assert(v.drop_first() =~= rest);
        assert(label.len() == klen);
        assert(le_enc(klen, 8) == b.subrange(0, 8));
        assert(enc_entries(v) == enc_entry((label, m)) + enc_entries(rest));
        assert(enc_entry((label, m)) == b.subrange(0, 8) + label + enc_meta(m));
        assert(enc_entries(v) =~= b);
        assert(forall|i: int| 1 <= i < v.len() ==> v[i] == rest[i - 1]);
    }
}

/// Decoding the encoding of a well-formed store gives that store back.
pub proof fn lemma_decode_encode(v: StoreModel)
    requires
        wf_store(v),
    ensures
        spec_decode(spec_encode(v)) == Some(v),
{
    lemma_pow256_vals();
    let b = spec_encode(v);
    lemma_le_enc_len(v.len() as int, 8);
    assert(b.subrange(0, 8) =~= le_enc(v.len() as int, 8));
    lemma_le_val_enc(v.len() as int, 8);
    assert(b.skip(8) =~= enc_entries(v));
    lemma_dec_enc_entries(v);
}

/// A decoded store is well formed and re-encodes to the bytes it was
/// decoded from.
pub proof fn lemma_encode_decode(b: Seq<u8>)
    requires
        spec_decode(b) is Some,
    ensures
        wf_store(spec_decode(b).unwrap()),
        spec_encode(spec_decode(b).unwrap()) == b,
{
    let n = le_val(b.subrange(0, 8));
    let v = dec_entries(b.skip(8), n).unwrap();
    lemma_enc_dec_entries(b.skip(8), n);
    lemma_le_enc_val(b.subrange(0, 8));
    assert(le_enc(v.len() as int, 8) == b.subrange(0, 8));
    assert(spec_encode(v) =~= b);
}

/// Serializing a store, deserializing those bytes, and serializing the
/// result yields byte-identical output.
pub proof fn lemma_reserialize_identical(v: StoreModel)
    requires
        wf_store(v),
    ensures
        spec_decode(spec_encode(v)) is Some,
        spec_encode(spec_decode(spec_encode(v)).unwrap()) == spec_encode(v),
{
    lemma_decode_encode(v);
    lemma_encode_decode(spec_encode(v));
}

proof fn lemma_pow256_mono(a: nat, b: nat)
    requires
        a <= b,
    ensures
        pow256(a) <= pow256(b),
    decreases b,
{
    if a < b {
        lemma_pow256_mono(a, (b - 1) as nat);
        lemma_pow256_pos((b - 1) as nat);
    }
}

/// Append the `w` little-endian bytes of `v` to `out`.
fn write_le(out: &mut Vec<u8>, v: u64, w: usize)
    requires
        (v as int) < pow256(w as nat),
    ensures
        final(out)@ == old(out)@ + le_enc(v as int, w as nat),
{
    let ghost old_len = old(out)@.len() as int;
    let mut cur: u64 = v;
    let mut k: usize = 0;
    while k < w
        invariant
            k <= w,
            0 <= old_len,
            (cur as int) < pow256((w - k) as nat),
            out@.len() == old_len + k,
            out@.take(old_len) == old(out)@,
            le_enc(v as int, w as nat) == out@.skip(old_len) + le_enc(cur as int, (w - k) as nat),
        decreases w - k,
    {
        let ghost prev = out@;
        proof {
            lemma_pow256_pos((w - k - 1) as nat);
            lemma_div256_bound(cur as int, pow256((w - k - 1) as nat));
        }
        let byte: u8 = (cur % 256) as u8;
        out.push(byte);
        proof {
            assert(out@.take(old_len) =~= prev.take(old_len));
            assert(out@.skip(old_len) =~= prev.skip(old_len) + seq![byte]);
            assert(le_enc(cur as int, (w - k) as nat) == seq![byte] + le_enc(
                cur as int / 256,
                (w - k - 1) as nat,
            ));
            assert(prev.skip(old_len) + (seq![byte] + le_enc(cur as int / 256, (w - k - 1) as nat))
                =~= (prev.skip(old_len) + seq![byte]) + le_enc(cur as int / 256, (w - k - 1) as nat));
        }
        cur = cur / 256;
        k = k + 1;
    }
    proof {
        assert(le_enc(cur as int, (w - k) as nat) =~= Seq::<u8>::empty());
        assert(out@.skip(old_len) + Seq::<u8>::empty() =~= out@.skip(old_len));
        assert(out@ =~= out@.take(old_len) + out@.skip(old_len));
    }
}

/// Read the value of the `w` little-endian bytes at `pos`.
fn read_le(b: &[u8], pos: usize, w: usize) -> (r: u64)
    requires
        w <= 8,
        pos + w <= b@.len(),
    ensures
        r as int == le_val(b@.subrange(pos as int, pos as int + w as int)),
        (r as int) < pow256(w as nat),
{
    let blen: usize = b.len();
    proof {
        assert(b@.len() <= usize::MAX);
    }
    let mut r: u64 = 0;
    let mut k: usize = w;
    proof {
        assert(b@.subrange(pos as int + w as int, pos as int + w as int) =~= Seq::<u8>::empty());
    }
    while k > 0
        invariant
            w <= 8,
            pos + w <= b@.len(),
            b@.len() <= usize::MAX,
            k <= w,
            r as int == le_val(b@.subrange(pos as int + k as int, pos as int + w as int)),
            (r as int) < pow256((w - k) as nat),
        decreases k,
    {
        k = k - 1;
        let byte: u8 = b[pos + k];
        proof {
            lemma_pow256_vals();
            lemma_pow256_mono((w - k - 1) as nat, 7);
            let s = b@.subrange(pos as int + k as int, pos as int + w as int);
            assert(s[0] == byte);
            assert(s.drop_first() =~= b@.subrange(
                pos as int + k as int + 1,
                pos as int + w as int,
            ));
        }
        r = r * 256 + (byte as u64);
    }
    r
}

/// The 32 bits of `x`, as a value a length field can carry.
fn i32_to_bits(x: i32) -> (r: u64)
    ensures
        r as int == i32_bits(x),
        (r as int) < pow256(4),
{
    proof {
        lemma_pow256_vals();
    }
    if x >= 0 {
        x as u64
    } else {
        ((x as i64) + 0x1_0000_0000) as u64
    }
}

/// The `i32` carried by 32 bits.
fn bits_to_i32(v: u64) -> (r: i32)
    requires
        (v as int) < pow256(4),
    ensures
        r == i32_from_bits(v as int),
{
    proof {
        lemma_pow256_vals();
    }
    if v < 0x8000_0000 {
        v as i32
    } else {
        ((v as i64) - 0x1_0000_0000) as i32
    }
}

/// Append the 20-byte encoding of one record to `out`.
fn write_meta(out: &mut Vec<u8>, m: WindowMetadata)
    ensures
        final(out)@ == old(out)@ + enc_meta(m),
{
    proof {
        lemma_pow256_vals();
    }
    write_le(out, m.width as u64, 4);
    write_le(out, m.height as u64, 4);
    let xb = i32_to_bits(m.x);
    write_le(out, xb, 4);
    let yb = i32_to_bits(m.y);
    write_le(out, yb, 4);
    out.push(if m.maximized {
        1
    } else {
        0
    });
    out.push(if m.visible {
        1
    } else {
        0
    });
    out.push(if m.decorated {
        1
    } else {
        0
    });
    out.push(if m.fullscreen {
        1
    } else {
        0
    });
    proof {
        assert(final(out)@ =~= old(out)@ + enc_meta(m));
    }
}

/// Decode the 20-byte record at `pos`.
fn read_meta(b: &[u8], pos: usize) -> (r: Option<WindowMetadata>)
    requires
        pos + 20 <= b@.len(),
    ensures
        r == dec_meta(b@.subrange(pos as int, pos as int + 20)),
{
    proof {
        lemma_pow256_vals();
    }
    let blen: usize = b.len();
    proof {
        assert(b@.len() <= usize::MAX);
    }
    let ghost s = b@.subrange(pos as int, pos as int + 20);
    let f0 = b[pos + 16];
    let f1 = b[pos + 17];
    let f2 = b[pos + 18];
    let f3 = b[pos + 19];
    proof {
        assert(s[16] == f0 && s[17] == f1 && s[18] == f2 && s[19] == f3);
    }
    if f0 > 1 || f1 > 1 || f2 > 1 || f3 > 1 {
        return None;
    }
    let w64 = read_le(b, pos, 4);
    let h64 = read_le(b, pos + 4, 4);
    let xb = read_le(b, pos + 8, 4);
    let yb = read_le(b, pos + 12, 4);
    proof {
        assert(s.subrange(0, 4) =~= b@.subrange(pos as int, pos as int + 4));
        assert(s.subrange(4, 8) =~= b@.subrange(pos as int + 4, pos as int + 8));
        assert(s.subrange(8, 12) =~= b@.subrange(pos as int + 8, pos as int + 12));
        assert(s.subrange(12, 16) =~= b@.subrange(pos as int + 12, pos as int + 16));
    }
    let x = bits_to_i32(xb);
    let y = bits_to_i32(yb);
    Some(
        WindowMetadata {
            width: w64 as u32,
            height: h64 as u32,
            x,
            y,
            maximized: f0 == 1,
            visible: f1 == 1,
            decorated: f2 == 1,
            fullscreen: f3 == 1,
        },
    )
}


proof fn lemma_enc_entries_push(v: StoreModel, e: (Seq<u8>, WindowMetadata))
    ensures
        enc_entries(v.push(e)) == enc_entries(v) + enc_entry(e),
    decreases v.len(),
{
    if v.len() == 0 {
        assert(v.push(e)[0] == e);
        assert(v.push(e).drop_first() =~= Seq::<(Seq<u8>, WindowMetadata)>::empty());
        assert(enc_entries(Seq::<(Seq<u8>, WindowMetadata)>::empty()) == Seq::<u8>::empty());
        assert(enc_entries(v.push(e)) == enc_entry(e) + Seq::<u8>::empty());
        assert(enc_entry(e) + Seq::<u8>::empty() =~= Seq::<u8>::empty() + enc_entry(e));
    } else {
        assert(v.push(e)[0] == v[0]);
        assert(v.push(e).drop_first() =~= v.drop_first().push(e));
        lemma_enc_entries_push(v.drop_first(), e);
        assert(enc_entry(v[0]) + (enc_entries(v.drop_first()) + enc_entry(e)) =~= (enc_entry(v[0])
            + enc_entries(v.drop_first())) + enc_entry(e));
    }
}

/// Serialize the whole store into the persisted binary form.
pub fn serialize_store(store: &WindowStore) -> (r: Vec<u8>)
    requires
        store.wf(),
    ensures
        r@ == spec_encode(store@),
{
    let n = store.len();
    let mut out: Vec<u8> = Vec::new();
    proof {
        lemma_pow256_vals();
        assert(out@ =~= Seq::<u8>::empty());
    }
    write_le(&mut out, n as u64, 8);
    proof {
        assert(out@ =~= le_enc(n as int, 8));
        assert(store@.take(0) =~= Seq::<(Seq<u8>, WindowMetadata)>::empty());
        assert(out@ =~= le_enc(n as int, 8) + enc_entries(store@.take(0)));
    }
    let mut i: usize = 0;
    while i < n
        invariant
            store.wf(),
            n == store@.len(),
            i <= n,
            out@ == le_enc(n as int, 8) + enc_entries(store@.take(i as int)),
        decreases n - i,
    {
        let ghost out0 = out@;
        let label = store.label_at(i);
        let klen = label.len();
        proof {
            lemma_pow256_vals();
            assert(store@[i as int].0.len() <= u64::MAX);
        }
        write_le(&mut out, klen as u64, 8);
        out.extend_from_slice(label.as_slice());
        let m = store.meta_at(i);
        write_meta(&mut out, m);
        proof {
            let e = store@[i as int];
            assert(out@ =~= out0 + (le_enc(e.0.len() as int, 8) + e.0 + enc_meta(e.1)));
            assert(store@.take(i + 1) =~= store@.take(i as int).push(e));
            lemma_enc_entries_push(store@.take(i as int), e);
            assert(out@ =~= le_enc(n as int, 8) + enc_entries(store@.take(i + 1)));
        }
        i = i + 1;
    }
    proof {
        assert(store@.take(n as int) =~= store@);
    }
    out
}

/// Prepend already-decoded entries to a decoder outcome.
spec fn opt_prepend(a: StoreModel, o: Option<StoreModel>) -> Option<StoreModel> {
    match o {
        Some(r) => Some(a + r),
        None => None,
    }
}

proof fn lemma_opt_prepend_empty(o: Option<StoreModel>)
    ensures
        opt_prepend(Seq::empty(), o) == o,
{
    match o {
        Some(r) => {
            assert(Seq::empty() + r =~= r);
        },
        None => {},
    }
}

/// Deserialize a store from the persisted binary form.  Decoding is
/// exact: it succeeds precisely on byte strings that are the encoding
/// of a well-formed store, and then yields that store.
pub fn deserialize_store(bytes: &[u8]) -> (r: Option<WindowStore>)
    ensures
        (match r {
            Some(s) => s.wf() && spec_decode(bytes@) == Some(s@),
            None => spec_decode(bytes@) is None,
        }),
{
    let len: usize = bytes.len();
    proof {
        assert(bytes@.len() <= usize::MAX);
    }
    if len < 8 {
        return None;
    }
    let n64 = read_le(bytes, 0, 8);
    proof {
        assert(bytes@.subrange(0, 8) =~= bytes@.subrange(0 as int, 0 as int + 8 as int));
    }
    let mut store = WindowStore::new();
    let mut pos: usize = 8;
    let mut i: u64 = 0;
    proof {
        lemma_opt_prepend_empty(dec_entries(bytes@.skip(8), n64 as int));
    }
    while i < n64
        invariant
            len == bytes@.len(),
            len <= usize::MAX,
            8 <= pos <= len,
            i <= n64,
            n64 as int == le_val(bytes@.subrange(0, 8)),
            store.wf(),
            store@.len() == i,
            dec_entries(bytes@.skip(8), n64 as int) == opt_prepend(
                store@,
                dec_entries(bytes@.skip(pos as int), n64 as int - i as int),
            ),
        decreases n64 - i,
    {
        let ghost rest0 = bytes@.skip(pos as int);
        let ghost m_count = n64 as int - i as int;
        proof {
            assert(rest0.len() == len - pos);
        }
        let rem = len - pos;
        if rem < 8 {
            proof {
                assert(dec_entries(rest0, m_count) is None);
                assert(spec_decode(bytes@) is None);
            }
            return None;
        }
        let klen64 = read_le(bytes, pos, 8);
        proof {
            assert(rest0.subrange(0, 8) =~= bytes@.subrange(pos as int, pos as int + 8 as int));
            assert(le_val(rest0.subrange(0, 8)) == klen64 as int);
        }
        if rem < 28 || klen64 > (rem - 28) as u64 {
            proof {
                assert(rest0.len() < 28 + klen64 as int);
                assert(dec_entries(rest0, m_count) is None);
                assert(spec_decode(bytes@) is None);
            }
            return None;
        }
        let klen = klen64 as usize;
        proof {
            assert(klen as int == klen64 as int);
        }
        let label_slice: &[u8] = &bytes[pos + 8..pos + 8 + klen];
        let label_vec: Vec<u8> = slice_to_vec(label_slice);
        proof {
            assert(label_vec@ =~= rest0.subrange(8, 8 + klen64 as int));
        }
        let meta_opt = read_meta(bytes, pos + 8 + klen);
        proof {
            assert(bytes@.subrange(
                pos as int + 8 + klen as int,
                pos as int + 8 + klen as int + 20,
            ) =~= rest0.subrange(8 + klen64 as int, 28 + klen64 as int));
        }
        let meta = match meta_opt {
            Some(meta) => meta,
            None => {
                proof {
                    assert(dec_meta(rest0.subrange(8 + klen64 as int, 28 + klen64 as int))
                        is None);
                    assert(dec_entries(rest0, m_count) is None);
                    assert(spec_decode(bytes@) is None);
                }
                return None;
            },
        };
        let ghost lv = label_vec@;
        let ghost tail = rest0.skip(28 + klen64 as int);
        proof {
            assert(tail =~= bytes@.skip(pos as int + 28 + klen as int));
            assert(dec_entries(rest0, m_count) == (match dec_entries(tail, m_count - 1) {
                Some(rest) => Some(seq![(lv, meta)] + rest),
                None => None,
            }));
        }
        match store.find(label_vec.as_slice()) {
            Some(_) => {
                proof {
                    let acc = store@;
                    match dec_entries(tail, m_count - 1) {
                        Some(rest) => {
                            let full = acc + (seq![(lv, meta)] + rest);
                            assert(dec_entries(bytes@.skip(8), n64 as int) == Some(full));
                            let i0 = crate::store::label_index(acc, lv);
                            assert(acc[i0].0 == lv);
                            assert(full[i0] == acc[i0]);
                            assert(full[acc.len() as int] == (lv, meta));
                            assert(!wf_store(full));
                            assert(spec_decode(bytes@) is None);
                        },
                        None => {
                            assert(dec_entries(rest0, m_count) is None);
                            assert(spec_decode(bytes@) is None);
                        },
                    }
                }
                return None;
            },
            None => {},
        }
        proof {
            let acc = store@;
            assert(acc.len() < u64::MAX);
            lemma_push_entry(acc, lv, meta);
            match dec_entries(tail, m_count - 1) {
                Some(rest) => {
                    assert(acc + (seq![(lv, meta)] + rest) =~= acc.push((lv, meta)) + rest);
                },
                None => {},
            }
        }
        store.push_raw(label_vec, meta);
        pos = pos + 28 + klen;
        i = i + 1;
    }
    if pos != len {
        proof {
            assert(bytes@.skip(pos as int).len() > 0);
            assert(dec_entries(bytes@.skip(pos as int), 0) is None);
            assert(spec_decode(bytes@) is None);
        }
        return None;
    }
    proof {
        assert(bytes@.skip(pos as int) =~= Seq::<u8>::empty());
        assert(dec_entries(bytes@.skip(pos as int), 0) == Some(
            Seq::<(Seq<u8>, WindowMetadata)>::empty(),
        ));
        assert(store@ + Seq::<(Seq<u8>, WindowMetadata)>::empty() =~= store@);
        assert(dec_entries(bytes@.skip(8), n64 as int) == Some(store@));
        assert(spec_decode(bytes@) == Some(store@));
    }
    Some(store)
}

/// The startup path: the store the persisted bytes describe, or an
/// empty store if they are missing their meaning (any decode failure).
pub fn load_store(bytes: &[u8]) -> (r: WindowStore)
    ensures
        r.wf(),
        r@ == (match spec_decode(bytes@) {
            Some(v) => v,
            None => Seq::<(Seq<u8>, WindowMetadata)>::empty(),
        }),
{
    match deserialize_store(bytes) {
        Some(s) => s,
        None => WindowStore::new(),
    }
}

} // verus!
