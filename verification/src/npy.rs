//! Rendering one shard as a `.npy` array file: a header naming the element
//! type and shape, followed by the row-major packed element data.  The
//! contracts pin the output down byte for byte.

use vstd::prelude::*;

verus! {

/// The decimal digits of `n`, most significant first.
pub open spec fn dec_rep(n: nat) -> Seq<u8>
    decreases n,
{
    if n < 10 {
        seq![(48 + n) as u8]
    } else {
        dec_rep(n / 10) + seq![(48 + n % 10) as u8]
    }
}

/// Ten to the `k`.
pub open spec fn pow10(k: nat) -> nat
    decreases k,
{
    if k == 0 {
        1nat
    } else {
        10 * pow10((k - 1) as nat)
    }
}

/// A number below `pow10(k)` has at most `k` decimal digits.
proof fn lemma_dec_rep_len(n: nat, k: nat)
    requires
        k >= 1,
        n < pow10(k),
    ensures
        1 <= dec_rep(n).len() <= k,
    decreases k,
{
    if n >= 10 {
        vstd::arithmetic::div_mod::lemma_fundamental_div_mod(n as int, 10);
        vstd::arithmetic::div_mod::lemma_mod_bound(n as int, 10);
        assert(pow10(k) == 10 * pow10((k - 1) as nat));
        lemma_dec_rep_len(n / 10, (k - 1) as nat);
    }
}

/// Every `u64` has at most twenty decimal digits.
proof fn lemma_dec_rep_len_u64(n: u64)
    ensures
        1 <= dec_rep(n as nat).len() <= 20,
{
    assert(pow10(20) == 100000000000000000000) by {
        reveal_with_fuel(pow10, 21);
    }
    lemma_dec_rep_len(n as nat, 20);
}

/// Render `n` in decimal.
pub fn u64_to_decimal(n: u64) -> (r: Vec<u8>)
    ensures
        r@ == dec_rep(n as nat),
        1 <= r@.len() <= 20,
{
    proof {
        lemma_dec_rep_len_u64(n);
    }
    if n == 0 {
        let mut out: Vec<u8> = Vec::new();
        out.push(48);
        proof {
            assert(out@ =~= dec_rep(0));
        }
        return out;
    }
    let mut rev: Vec<u8> = Vec::new();
    let mut m: u64 = n;
    proof {
        assert(rev@.reverse() =~= Seq::<u8>::empty());
        assert(dec_rep(n as nat) =~= dec_rep(n as nat) + rev@.reverse());
    }
    while m > 0
        invariant
            dec_rep(n as nat) == if m > 0 {
                dec_rep(m as nat) + rev@.reverse()
            } else {
                rev@.reverse()
            },
        decreases m,
    {
        let ghost old_rev = rev@;
        let ghost old_m = m as nat;
        let d: u8 = (m % 10) as u8 + 48;
        rev.push(d);
        m = m / 10;
        proof {
            assert(old_rev.push(d).reverse() =~= seq![d] + old_rev.reverse());
            if old_m >= 10 {
                assert(dec_rep(old_m) == dec_rep(old_m / 10) + seq![(48 + old_m % 10) as u8]);
                assert(dec_rep(old_m / 10) + (seq![d] + old_rev.reverse()) =~= (dec_rep(
                    old_m / 10,
                ) + seq![(48 + old_m % 10) as u8]) + old_rev.reverse());
            } else {
                assert(dec_rep(old_m) =~= seq![d]);
                assert(seq![d] + old_rev.reverse() =~= dec_rep(old_m) + old_rev.reverse());
            }
        }
    }
    let mut out: Vec<u8> = Vec::new();
    let mut i: usize = rev.len();
    while i > 0
        invariant
            i <= rev@.len(),
            out@ =~= rev@.reverse().subrange(0, rev@.len() - i),
        decreases i,
    {
        i = i - 1;
        out.push(rev[i]);
        proof {
            assert(out@ =~= rev@.reverse().subrange(0, rev@.len() - i));
        }
    }
    proof {
        assert(out@ =~= rev@.reverse());
    }
    out
}

/// The element types a shard can hold.
#[derive(Clone, Copy, PartialEq, Eq, Structural, Debug)]
pub enum NpyDtype {
    /// One byte per boolean.
    Bool,
    /// Little-endian unsigned 16-bit.
    U16LE,
    /// Little-endian 32-bit IEEE float, handled here as its bit pattern.
    F32LE,
}

/// The dtype descriptor text of the header dict.
pub open spec fn descr_bytes(d: NpyDtype) -> Seq<u8> {
    match d {
        NpyDtype::Bool => seq![124u8, 98u8, 49u8],
        NpyDtype::U16LE => seq![60u8, 117u8, 50u8],
        NpyDtype::F32LE => seq![60u8, 102u8, 52u8],
    }
}

/// The shape text: `(rows, cols)` for a matrix, `(rows,)` for a vector.
pub open spec fn shape_bytes(rows: nat, cols: Option<nat>) -> Seq<u8> {
    match cols {
        Some(c) => seq![40u8] + dec_rep(rows) + seq![44u8, 32u8] + dec_rep(c) + seq![41u8],
        None => seq![40u8] + dec_rep(rows) + seq![44u8, 41u8],
    }
}

/// The header dict text, before padding.
pub open spec fn npy_dict(d: NpyDtype, rows: nat, cols: Option<nat>) -> Seq<u8> {
    seq![123u8, 39u8, 100u8, 101u8, 115u8, 99u8, 114u8, 39u8, 58u8, 32u8, 39u8] + descr_bytes(d) + seq![39u8, 44u8, 32u8, 39u8, 102u8, 111u8, 114u8, 116u8, 114u8, 97u8, 110u8, 95u8, 111u8, 114u8, 100u8, 101u8, 114u8, 39u8, 58u8, 32u8, 70u8, 97u8, 108u8, 115u8, 101u8, 44u8, 32u8, 39u8, 115u8, 104u8, 97u8, 112u8, 101u8, 39u8, 58u8, 32u8] + shape_bytes(rows, cols)
        + seq![44u8, 32u8, 125u8]
}

/// `n` spaces.
pub open spec fn spaces(n: int) -> Seq<u8> {
    Seq::new(n as nat, |i: int| 32u8)
}

/// A 16-bit value, little endian.
pub open spec fn le2(x: int) -> Seq<u8> {
    seq![(x % 256) as u8, ((x / 256) % 256) as u8]
}

/// A 32-bit value, little endian.
pub open spec fn le4(x: u32) -> Seq<u8> {
    seq![
        (x as int % 256) as u8,
        ((x as int / 256) % 256) as u8,
        ((x as int / 65536) % 256) as u8,
        ((x as int / 16777216) % 256) as u8,
    ]
}

/// The complete file header: magic, format version 1.0, the header dict
/// padded with spaces to a 64-byte boundary, and a closing newline.
pub open spec fn npy_header(d: NpyDtype, rows: nat, cols: Option<nat>) -> Seq<u8> {
    let dict = npy_dict(d, rows, cols);
    let pad = (64 - ((11 + dict.len() as int) % 64)) % 64;
    let hlen = dict.len() + pad + 1;
    seq![147u8, 78u8, 85u8, 77u8, 80u8, 89u8, 1u8, 0u8] + le2(hlen as int) + dict + spaces(pad) + seq![10u8]
}

/// The header is aligned: its total length — magic, version, length field,
/// dict, padding and newline — is a whole number of 64-byte blocks, as the
/// array format asks for.
pub proof fn lemma_npy_header_aligned(d: NpyDtype, rows: nat, cols: Option<nat>)
    ensures
        npy_header(d, rows, cols).len() % 64 == 0,
{
    let dict = npy_dict(d, rows, cols);
    let n = 11 + dict.len() as int;
    let r = n % 64;
    let pad = (64 - r) % 64;
    vstd::arithmetic::div_mod::lemma_fundamental_div_mod(n, 64);
    vstd::arithmetic::div_mod::lemma_mod_bound(n, 64);
    assert(npy_header(d, rows, cols).len() == n + pad - 1 + 1);
    if r == 0 {
        assert(pad == 64int % 64);
        vstd::arithmetic::div_mod::lemma_mod_self_0(64);
        vstd::arithmetic::div_mod::lemma_fundamental_div_mod_converse_mod(n + pad, 64, n / 64, 0);
    } else {
        assert(pad == 64 - r) by {
            vstd::arithmetic::div_mod::lemma_small_mod((64 - r) as nat, 64);
        }
        vstd::arithmetic::div_mod::lemma_fundamental_div_mod_converse_mod(
            n + pad,
            64,
            n / 64 + 1,
            0,
        );
    }
}

/// Append one piece of literal text.
fn push_dict_p1(out: &mut Vec<u8>)
    ensures
        final(out)@ == old(out)@ + seq![123u8, 39u8, 100u8, 101u8, 115u8, 99u8, 114u8, 39u8, 58u8, 32u8, 39u8],
{
    out.push(123);
    out.push(39);
    out.push(100);
    out.push(101);
    out.push(115);
    out.push(99);
    out.push(114);
    out.push(39);
    out.push(58);
    out.push(32);
    out.push(39);
    proof {
        assert(out@ =~= old(out)@ + seq![123u8, 39u8, 100u8, 101u8, 115u8, 99u8, 114u8, 39u8, 58u8, 32u8, 39u8]);
    }
}

/// Append one piece of literal text.
fn push_dict_p2(out: &mut Vec<u8>)
    ensures
        final(out)@ == old(out)@ + seq![39u8, 44u8, 32u8, 39u8, 102u8, 111u8, 114u8, 116u8, 114u8, 97u8, 110u8, 95u8, 111u8, 114u8, 100u8, 101u8, 114u8, 39u8, 58u8, 32u8, 70u8, 97u8, 108u8, 115u8, 101u8, 44u8, 32u8, 39u8, 115u8, 104u8, 97u8, 112u8, 101u8, 39u8, 58u8, 32u8],
{
    out.push(39);
    out.push(44);
    out.push(32);
    out.push(39);
    out.push(102);
    out.push(111);
    out.push(114);
    out.push(116);
    out.push(114);
    out.push(97);
    out.push(110);
    out.push(95);
    out.push(111);
    out.push(114);
    out.push(100);
    out.push(101);
    out.push(114);
    out.push(39);
    out.push(58);
    out.push(32);
    out.push(70);
    out.push(97);
    out.push(108);
    out.push(115);
    out.push(101);
    out.push(44);
    out.push(32);
    out.push(39);
    out.push(115);
    out.push(104);
    out.push(97);
    out.push(112);
    out.push(101);
    out.push(39);
    out.push(58);
    out.push(32);
    proof {
        assert(out@ =~= old(out)@ + seq![39u8, 44u8, 32u8, 39u8, 102u8, 111u8, 114u8, 116u8, 114u8, 97u8, 110u8, 95u8, 111u8, 114u8, 100u8, 101u8, 114u8, 39u8, 58u8, 32u8, 70u8, 97u8, 108u8, 115u8, 101u8, 44u8, 32u8, 39u8, 115u8, 104u8, 97u8, 112u8, 101u8, 39u8, 58u8, 32u8]);
    }
}

/// Append one piece of literal text.
fn push_dict_p3(out: &mut Vec<u8>)
    ensures
        final(out)@ == old(out)@ + seq![44u8, 32u8, 125u8],
{
    out.push(44);
    out.push(32);
    out.push(125);
    proof {
        assert(out@ =~= old(out)@ + seq![44u8, 32u8, 125u8]);
    }
}

/// Append the dtype descriptor.
fn push_descr(out: &mut Vec<u8>, d: NpyDtype)
    ensures
        final(out)@ == old(out)@ + descr_bytes(d),
{
    match d {
        NpyDtype::Bool => {
            out.push(124);
            out.push(98);
            out.push(49);
        },
        NpyDtype::U16LE => {
            out.push(60);
            out.push(117);
            out.push(50);
        },
        NpyDtype::F32LE => {
            out.push(60);
            out.push(102);
            out.push(52);
        },
    }
    proof {
        assert(out@ =~= old(out)@ + descr_bytes(d));
    }
}

/// Append a whole vector.
fn push_all(out: &mut Vec<u8>, piece: &Vec<u8>)
    ensures
        final(out)@ == old(out)@ + piece@,
{
    let mut i: usize = 0;
    while i < piece.len()
        invariant
            i <= piece@.len(),
            out@ =~= old(out)@ + piece@.subrange(0, i as int),
        decreases piece@.len() - i,
    {
        out.push(piece[i]);
        i = i + 1;
        proof {
            assert(out@ =~= old(out)@ + piece@.subrange(0, i as int));
        }
    }
    proof {
        assert(out@ =~= old(out)@ + piece@);
    }
}

/// Render the header of one shard file.
pub fn npy_header_bytes(d: NpyDtype, rows: u64, cols: Option<u64>) -> (r: Vec<u8>)
    ensures
        r@ == npy_header(
            d,
            rows as nat,
            match cols {
                Some(c) => Some(c as nat),
                None => None,
            },
        ),
{
    let ghost cols_spec: Option<nat> = match cols {
        Some(c) => Some(c as nat),
        None => None,
    };
    let mut dict: Vec<u8> = Vec::new();
    push_dict_p1(&mut dict);
    push_descr(&mut dict, d);
    push_dict_p2(&mut dict);
    dict.push(40);
    let rd = u64_to_decimal(rows);
    push_all(&mut dict, &rd);
    match cols {
        Some(c) => {
            dict.push(44);
            dict.push(32);
            let cd = u64_to_decimal(c);
            push_all(&mut dict, &cd);
            dict.push(41);
        },
        None => {
            dict.push(44);
            dict.push(41);
        },
    }
    push_dict_p3(&mut dict);
    proof {
        assert(dict@ =~= npy_dict(d, rows as nat, cols_spec));
    }
    let rem: usize = (11 + dict.len()) % 64;
    let pad: usize = (64 - rem) % 64;
    let hlen: usize = dict.len() + pad + 1;
    let mut r: Vec<u8> = Vec::new();
    r.push(147);
    r.push(78);
    r.push(85);
    r.push(77);
    r.push(80);
    r.push(89);
    r.push(1);
    r.push(0);
    r.push((hlen % 256) as u8);
    r.push(((hlen / 256) % 256) as u8);
    proof {
        assert(r@ =~= seq![147u8, 78u8, 85u8, 77u8, 80u8, 89u8, 1u8, 0u8] + le2(hlen as int));
    }
    push_all(&mut r, &dict);
    let mut k: usize = 0;
    while k < pad
        invariant
            k <= pad,
            r@ =~= seq![147u8, 78u8, 85u8, 77u8, 80u8, 89u8, 1u8, 0u8] + le2(hlen as int) + dict@ + spaces(k as int),
        decreases pad - k,
    {
        r.push(32);
        k = k + 1;
        proof {
            assert(r@ =~= seq![147u8, 78u8, 85u8, 77u8, 80u8, 89u8, 1u8, 0u8] + le2(hlen as int) + dict@ + spaces(k as int));
        }
    }
    r.push(10);
    proof {
        assert(r@ =~= npy_header(d, rows as nat, cols_spec));
    }
    r
}

/// The packed bytes of one row of boolean features: one byte per bit.
pub open spec fn row_bytes(row: Seq<bool>) -> Seq<u8> {
    Seq::new(
        row.len(),
        |i: int|
            if row[i] {
                1u8
            } else {
                0u8
            },
    )
}

/// The packed payload of all input rows, in order.
pub open spec fn bool_payload(rows: Seq<Vec<bool>>) -> Seq<u8>
    decreases rows.len(),
{
    if rows.len() == 0 {
        Seq::empty()
    } else {
        bool_payload(rows.drop_last()) + row_bytes(rows.last()@)
    }
}

/// The packed payload of all 16-bit labels, in order, little endian.
pub open spec fn u16_payload(labels: Seq<u16>) -> Seq<u8>
    decreases labels.len(),
{
    if labels.len() == 0 {
        Seq::empty()
    } else {
        u16_payload(labels.drop_last()) + le2(labels.last() as int)
    }
}

/// The packed payload of all float labels (as bit patterns), in order,
/// little endian.
pub open spec fn f32_payload(bits: Seq<u32>) -> Seq<u8>
    decreases bits.len(),
{
    if bits.len() == 0 {
        Seq::empty()
    } else {
        f32_payload(bits.drop_last()) + le4(bits.last())
    }
}

/// The complete inputs shard file: header for a boolean matrix of shape
/// `(rows.len(), cols)`, then every row packed one byte per feature bit.
pub fn input_shard_bytes(rows: &Vec<Vec<bool>>, cols: u64) -> (r: Vec<u8>)
    requires
        forall|i: int| 0 <= i < rows@.len() ==> rows@[i]@.len() == cols,
    ensures
        r@ == npy_header(NpyDtype::Bool, rows@.len() as nat, Some(cols as nat)) + bool_payload(
            rows@,
        ),
{
    let mut r = npy_header_bytes(NpyDtype::Bool, rows.len() as u64, Some(cols));
    let ghost header = r@;
    let mut i: usize = 0;
    while i < rows.len()
        invariant
            i <= rows@.len(),
            r@ =~= header + bool_payload(rows@.subrange(0, i as int)),
        decreases rows@.len() - i,
    {
        let row = &rows[i];
        let mut j: usize = 0;
        while j < row.len()
            invariant
                i < rows@.len(),
                j <= row@.len(),
                row == rows@[i as int],
                r@ =~= header + bool_payload(rows@.subrange(0, i as int)) + row_bytes(
                    row@.subrange(0, j as int),
                ),
            decreases row@.len() - j,
        {
            r.push(
                if row[j] {
                    1
                } else {
                    0
                },
            );
            j = j + 1;
            proof {
                assert(row_bytes(row@.subrange(0, j as int)) =~= row_bytes(
                    row@.subrange(0, j - 1),
                ).push(
                    if row@[j - 1] {
                        1u8
                    } else {
                        0u8
                    },
                ));
                assert(r@ =~= header + bool_payload(rows@.subrange(0, i as int)) + row_bytes(
                    row@.subrange(0, j as int),
                ));
            }
        }
        i = i + 1;
        proof {
            let pre = rows@.subrange(0, i as int);
            assert(pre.drop_last() =~= rows@.subrange(0, i - 1));
            assert(row@.subrange(0, row@.len() as int) =~= row@);
            assert(r@ =~= header + bool_payload(pre));
        }
    }
    proof {
        assert(rows@.subrange(0, rows@.len() as int) =~= rows@);
    }
    r
}

/// The complete labels shard file for move labels: header for a vector of
/// unsigned 16-bit values, then every label little endian.
pub fn label_shard_bytes_u16(labels: &Vec<u16>) -> (r: Vec<u8>)
    ensures
        r@ == npy_header(NpyDtype::U16LE, labels@.len() as nat, None) + u16_payload(labels@),
{
    let mut r = npy_header_bytes(NpyDtype::U16LE, labels.len() as u64, None);
    let ghost header = r@;
    let mut i: usize = 0;
    while i < labels.len()
        invariant
            i <= labels@.len(),
            r@ =~= header + u16_payload(labels@.subrange(0, i as int)),
        decreases labels@.len() - i,
    {
        let x = labels[i];
        r.push((x % 256) as u8);
        r.push(((x / 256) % 256) as u8);
        i = i + 1;
        proof {
            let pre = labels@.subrange(0, i as int);
            assert(pre.drop_last() =~= labels@.subrange(0, i - 1));
            assert(r@ =~= header + u16_payload(pre));
        }
    }
    proof {
        assert(labels@.subrange(0, labels@.len() as int) =~= labels@);
    }
    r
}

/// The complete labels shard file for evaluation labels: header for a
/// vector of 32-bit floats, then every label's bit pattern little endian.
pub fn label_shard_bytes_f32(bits: &Vec<u32>) -> (r: Vec<u8>)
    ensures
        r@ == npy_header(NpyDtype::F32LE, bits@.len() as nat, None) + f32_payload(bits@),
{
    let mut r = npy_header_bytes(NpyDtype::F32LE, bits.len() as u64, None);
    let ghost header = r@;
    let mut i: usize = 0;
    while i < bits.len()
        invariant
            i <= bits@.len(),
            r@ =~= header + f32_payload(bits@.subrange(0, i as int)),
        decreases bits@.len() - i,
    {
        let x = bits[i];
        r.push((x % 256) as u8);
        r.push(((x / 256) % 256) as u8);
        r.push(((x / 65536) % 256) as u8);
        r.push(((x / 16777216) % 256) as u8);
        i = i + 1;
        proof {
            let pre = bits@.subrange(0, i as int);
            assert(pre.drop_last() =~= bits@.subrange(0, i - 1));
            assert(r@ =~= header + f32_payload(pre));
        }
    }
    proof {
        assert(bits@.subrange(0, bits@.len() as int) =~= bits@);
    }
    r
}

} // verus!
