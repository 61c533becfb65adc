//! Variable-width LZW decompression with clear and end-of-information
//! control codes, as used for the compressed pixel data of image blocks.
//!
//! With minimum code size `k`, code `2^k` is the clear code and `2^k + 1`
//! ends the stream. The dictionary starts with one single-byte entry per
//! code below `2^k`; each accepted code appends one entry, and the code
//! width grows by one bit, up to 12, whenever the next entry to be
//! assigned would not fit in the current width.

use vstd::prelude::*;
use vstd::arithmetic::power2::{pow2, lemma2_to64, lemma_pow2_strictly_increases};
use vstd::bits::{lemma_u16_shl_is_mul, lemma_usize_shl_is_mul};
use crate::bit_reader::{BitReader, bits_value, lemma_bits_value_bound};
use crate::error::ParserError;

verus! {

/// The dictionary at the start of decoding and after every clear code:
/// one entry per code up to and including the two control codes. The
/// two control entries are placeholders that are never emitted.
pub open spec fn init_table(k: nat) -> Seq<Seq<u8>> {
    Seq::new(pow2(k) + 2, |i: int| seq![i as u8])
}

/// The dictionary a `Vec` of entries stands for.
pub open spec fn table_view(t: Seq<Vec<u8>>) -> Seq<Seq<u8>> {
    t.map_values(|v: Vec<u8>| v@)
}

/// The indices emitted by the rest of the code stream, starting at bit
/// position `pos` with the given code width, dictionary, and previously
/// accepted code (`None` right after a clear code or at the start).
///
/// A clear code resets the dictionary and the width and forgets the
/// previous code; the code after a reset must be a root. A code one past
/// the end of the dictionary is the deferred case whose entry is built
/// from the previous entry and its own first byte; a code further out is
/// invalid. When the dictionary holds `2^12` entries and another entry
/// would be needed, decoding fails rather than grow past 12-bit codes.
pub open spec fn lzw_run(
    data: Seq<u8>,
    k: nat,
    pos: int,
    width: nat,
    table: Seq<Seq<u8>>,
    prev: Option<int>,
) -> Result<Seq<u8>, ParserError>
    decreases 8 * data.len() - pos,
{
    if width == 0 || pos + width > 8 * data.len() {
        Err(ParserError::BitStreamTruncated)
    } else {
        let c = bits_value(data, pos, width) as int;
        let p2 = pos + width;
        if c == pow2(k) {
            lzw_run(data, k, p2, (k + 1) as nat, init_table(k), None)
        } else if c == pow2(k) + 1 {
            Ok(Seq::empty())
        } else {
            match prev {
                None => {
                    if c < pow2(k) {
                        match lzw_run(data, k, p2, width, table, Some(c)) {
                            Ok(rest) => Ok(seq![c as u8] + rest),
                            Err(e) => Err(e),
                        }
                    } else {
                        Err(ParserError::InvalidCode)
                    }
                },
                Some(pc) => {
                    if table.len() >= 4096 {
                        Err(ParserError::CodeWidthOverflow)
                    } else if c < table.len() {
                        let entry = table[c];
                        let t2 = table.push(table[pc] + seq![entry[0]]);
                        let w2 = if t2.len() == pow2(width) && width < 12 {
                            (width + 1) as nat
                        } else {
                            width
                        };
                        match lzw_run(data, k, p2, w2, t2, Some(c)) {
                            Ok(rest) => Ok(entry + rest),
                            Err(e) => Err(e),
                        }
                    } else if c == table.len() {
                        let entry = table[pc] + seq![table[pc][0]];
                        let t2 = table.push(entry);
                        let w2 = if t2.len() == pow2(width) && width < 12 {
                            (width + 1) as nat
                        } else {
                            width
                        };
                        match lzw_run(data, k, p2, w2, t2, Some(c)) {
                            Ok(rest) => Ok(entry + rest),
                            Err(e) => Err(e),
                        }
                    } else {
                        Err(ParserError::InvalidCode)
                    }
                },
            }
        }
    }
}

/// The result of decoding a whole compressed buffer with minimum code
/// size `k`: the run from bit position zero, width `k + 1`, the initial
/// dictionary, and no previous code.
pub open spec fn lzw_spec(data: Seq<u8>, k: nat) -> Result<Seq<u8>, ParserError> {
    lzw_run(data, k, 0, (k + 1) as nat, init_table(k), None)
}

/// The executable result agrees with the specified one.
pub open spec fn result_matches(
    r: Result<Vec<u8>, ParserError>,
    s: Result<Seq<u8>, ParserError>,
) -> bool {
    match r {
        Ok(v) => s matches Ok(sv) && v@ == sv,
        Err(e) => s matches Err(se) && e == se,
    }
}

/// A dictionary is well formed for minimum code size `k` when it holds at
/// least the initial entries, none is empty, and every byte of every
/// non-control entry is a root index below `2^k`.
pub open spec fn table_ok(k: nat, table: Seq<Seq<u8>>) -> bool {
    &&& table.len() >= pow2(k) + 2
    &&& forall|j: int| 0 <= j < table.len() ==> table[j].len() >= 1
    &&& forall|j: int, b: int|
        0 <= j < table.len() && j != pow2(k) && j != pow2(k) + 1 && 0 <= b < table[j].len()
            ==> (#[trigger] table[j][b] as nat) < pow2(k)
}

/// A previous code must name a non-control dictionary entry.
pub open spec fn prev_ok(k: nat, table: Seq<Seq<u8>>, prev: Option<int>) -> bool {
    match prev {
        None => true,
        Some(pc) => 0 <= pc < table.len() && pc != pow2(k) && pc != pow2(k) + 1,
    }
}

proof fn lemma_pow2_le_256(k: nat)
    requires
        k <= 8,
    ensures
        pow2(k) <= 256,
{
    lemma2_to64();
    if k < 8 {
        lemma_pow2_strictly_increases(k, 8);
    }
}

/// Appending an entry of root indices keeps a dictionary well formed.
proof fn lemma_push_preserves_table_ok(k: nat, table: Seq<Seq<u8>>, e: Seq<u8>)
    requires
        table_ok(k, table),
        e.len() >= 1,
        forall|b: int| 0 <= b < e.len() ==> (#[trigger] e[b] as nat) < pow2(k),
    ensures
        table_ok(k, table.push(e)),
{
    let t2 = table.push(e);
    assert(forall|j: int| 0 <= j < table.len() ==> t2[j] == table[j]);
    assert(t2[table.len() as int] == e);
}

/// The initial dictionary is well formed.
pub proof fn lemma_init_table_ok(k: nat)
    requires
        k <= 8,
    ensures
        table_ok(k, init_table(k)),
{
    lemma_pow2_le_256(k);
    assert forall|j: int, b: int|
        0 <= j < init_table(k).len() && j != pow2(k) && j != pow2(k) + 1 && 0 <= b < init_table(
            k,
        )[j].len() implies (#[trigger] init_table(k)[j][b] as nat) < pow2(k) by {
        assert(init_table(k)[j] == seq![j as u8]);
        assert(init_table(k)[j][b] == j as u8);
    }
}

/// Every index a well-formed run emits is a root index below `2^k`:
/// decoded pixel indices always lie inside a palette of `2^k` entries.
pub proof fn lemma_lzw_run_bound(
    data: Seq<u8>,
    k: nat,
    pos: int,
    width: nat,
    table: Seq<Seq<u8>>,
    prev: Option<int>,
)
    requires
        k <= 8,
        table_ok(k, table),
        prev_ok(k, table, prev),
    ensures
        lzw_run(data, k, pos, width, table, prev) matches Ok(v) ==> forall|i: int|
            0 <= i < v.len() ==> (#[trigger] v[i] as nat) < pow2(k),
    decreases 8 * data.len() - pos,
{
    if width == 0 || pos + width > 8 * data.len() {
    } else {
        let c = bits_value(data, pos, width) as int;
        let p2 = pos + width;
        if c == pow2(k) {
            lemma_init_table_ok(k);
            lemma_lzw_run_bound(data, k, p2, (k + 1) as nat, init_table(k), None);
        } else if c == pow2(k) + 1 {
        } else {
            match prev {
                None => {
                    if c < pow2(k) {
                        lemma_lzw_run_bound(data, k, p2, width, table, Some(c));
                        lemma_pow2_le_256(k);
                        let res = lzw_run(data, k, pos, width, table, prev);
                        if res is Ok {
                            let v = res->Ok_0;
                            let rest = lzw_run(data, k, p2, width, table, Some(c))->Ok_0;
                            assert(v == seq![c as u8] + rest);
                            assert((v[0] as nat) < pow2(k));
                        }
                    }
                },
                Some(pc) => {
                    if table.len() >= 4096 {
                    } else if c < table.len() {
                        let entry = table[c];
                        let newe = table[pc] + seq![entry[0]];
                        let t2 = table.push(newe);
                        let w2 = if t2.len() == pow2(width) && width < 12 {
                            (width + 1) as nat
                        } else {
                            width
                        };
                        assert(table_ok(k, t2)) by {
                            assert(forall|j: int| 0 <= j < table.len() ==> t2[j] == table[j]);
                            assert(t2[table.len() as int] == newe);
                        }
                        lemma_lzw_run_bound(data, k, p2, w2, t2, Some(c));
                        let res = lzw_run(data, k, pos, width, table, prev);
                        if res is Ok {
                            let v = res->Ok_0;
                            let rest = lzw_run(data, k, p2, w2, t2, Some(c))->Ok_0;
                            assert(v == entry + rest);
                        }
                    } else if c == table.len() {
                        let entry = table[pc] + seq![table[pc][0]];
                        let t2 = table.push(entry);
                        let w2 = if t2.len() == pow2(width) && width < 12 {
                            (width + 1) as nat
                        } else {
                            width
                        };
                        assert(table_ok(k, t2)) by {
                            assert(forall|j: int| 0 <= j < table.len() ==> t2[j] == table[j]);
                            assert(t2[table.len() as int] == entry);
                        }
                        lemma_lzw_run_bound(data, k, p2, w2, t2, Some(c));
                        let res = lzw_run(data, k, pos, width, table, prev);
                        if res is Ok {
                            let v = res->Ok_0;
                            let rest = lzw_run(data, k, p2, w2, t2, Some(c))->Ok_0;
                            assert(v == entry + rest);
                        }
                    }
                },
            }
        }
    }
}

/// A clear code resets everything: from any decoding state, reading the
/// clear code continues exactly as a fresh decode would from the next
/// bit position, with the initial dictionary, the initial width, and no
/// previous code.
pub proof fn lemma_clear_resets(
    data: Seq<u8>,
    k: nat,
    pos: int,
    width: nat,
    table: Seq<Seq<u8>>,
    prev: Option<int>,
)
    requires
        width >= 1,
        pos + width <= 8 * data.len(),
        bits_value(data, pos, width) == pow2(k),
    ensures
        lzw_run(data, k, pos, width, table, prev) == lzw_run(
            data,
            k,
            pos + width,
            (k + 1) as nat,
            init_table(k),
            None,
        ),
{
}

/// The tail of a decode whose remaining codes are the roots `j .. n-1`
/// in order, each in `k + 1` bits, followed by the end code: it emits
/// exactly those roots. The dictionary has grown by one entry per code
/// already read and still holds every root unchanged, so each code is
/// found, emits its single index, and never forces a width change.
proof fn lemma_root_chain(data: Seq<u8>, k: nat, table: Seq<Seq<u8>>, j: nat, n: nat)
    requires
        1 <= k <= 8,
        1 <= j <= n,
        n + 2 <= pow2(k),
        table.len() == pow2(k) + 2 + (j - 1),
        forall|c: int| 0 <= c < pow2(k) ==> #[trigger] table[c] == seq![c as u8],
        8 * data.len() >= (n + 2) * (k + 1),
        forall|i: int|
            0 <= i < n ==> #[trigger] bits_value(data, ((i + 1) * ((k + 1) as int)), (k + 1) as nat)
                == i,
        bits_value(data, (((n + 1) * (k + 1)) as int), (k + 1) as nat) == pow2(k) + 1,
    ensures
        lzw_run(data, k, (((j + 1) * (k + 1)) as int), (k + 1) as nat, table, Some(j - 1 as int)) == Ok::<
            Seq<u8>,
            ParserError,
        >(Seq::new((n - j) as nat, |i: int| (j + i) as u8)),
    decreases n - j,
{
    let w = (k + 1) as nat;
    let pos: int = ((j + 1) * (k + 1)) as int;
    assert((j + 1) * (k + 1) + (k + 1) == (j + 2) * (k + 1)) by (nonlinear_arith);
    assert((j + 2) * (k + 1) <= (n + 2) * (k + 1)) by (nonlinear_arith)
        requires
            j <= n,
    ;
    lemma_pow2_le_256(k);
    assert(pow2(k + 1) == 2 * pow2(k)) by {
        vstd::arithmetic::power2::lemma_pow2_unfold(k + 1);
    }
    if j == n {
        assert(bits_value(data, pos, w) == pow2(k) + 1);
        assert(Seq::new(0, |i: int| (j + i) as u8) =~= Seq::<u8>::empty());
    } else {
        assert(bits_value(data, pos, w) == j) by {
            assert(0 <= j < n);
        }
        let c = j as int;
        let entry = table[c];
        let t2 = table.push(table[j - 1] + seq![entry[0]]);
        assert(t2.len() == pow2(k) + 2 + j);
        assert(t2.len() < pow2(k + 1));
        assert(forall|r: int| 0 <= r < pow2(k) ==> t2[r] == table[r]);
        lemma_root_chain(data, k, t2, j + 1, n);
        let rest = Seq::new((n - j - 1) as nat, |i: int| (j + 1 + i) as u8);
        assert(lzw_run(data, k, pos, w, table, Some(j - 1)) == Ok::<Seq<u8>, ParserError>(
            entry + rest,
        ));
        assert(entry + rest =~= Seq::new((n - j) as nat, |i: int| (j + i) as u8));
    }
}

/// Decoding a stream that encodes the index sequence `0, 1, ..., n-1`
/// with minimum code size `k` yields exactly that sequence. The stream
/// carries the clear code, then each index as its own root code, then
/// the end code, all in `k + 1` bits, which is the encoding of that
/// sequence for any `n + 2` up to `2^k`: no dictionary entry is ever
/// referenced and the code width never grows.
pub proof fn lemma_counting_sequence_decodes(data: Seq<u8>, k: nat, n: nat)
    requires
        1 <= k <= 8,
        1 <= n,
        n + 2 <= pow2(k),
        8 * data.len() >= (n + 2) * (k + 1),
        bits_value(data, 0, (k + 1) as nat) == pow2(k),
        forall|i: int|
            0 <= i < n ==> #[trigger] bits_value(data, ((i + 1) * ((k + 1) as int)), (k + 1) as nat)
                == i,
        bits_value(data, (((n + 1) * (k + 1)) as int), (k + 1) as nat) == pow2(k) + 1,
    ensures
        lzw_spec(data, k) == Ok::<Seq<u8>, ParserError>(Seq::new(n, |i: int| i as u8)),
{
    let w = (k + 1) as nat;
    assert((n + 2) * (k + 1) >= 2 * (k + 1)) by (nonlinear_arith)
        requires
            n >= 1,
    ;
    lemma_pow2_le_256(k);
    // the leading clear code leaves the initial state untouched
    assert(lzw_spec(data, k) == lzw_run(data, k, (k + 1) as int, w, init_table(k), None)) by {
        lemma_clear_resets(data, k, 0, w, init_table(k), None);
    }
    // the first root is emitted directly and becomes the previous code
    assert(1 * (k + 1) == k + 1) by (nonlinear_arith);
    assert(bits_value(data, (k + 1) as int, w) == 0) by {
        assert(1 * ((k + 1) as int) == (k + 1) as int);
    }
    assert((k + 1) + (k + 1) == 2 * (k + 1)) by (nonlinear_arith);
    lemma_root_chain(data, k, init_table(k), 1, n);
    let rest = Seq::new((n - 1) as nat, |i: int| (1 + i) as u8);
    assert(lzw_run(data, k, (k + 1) as int, w, init_table(k), None) == Ok::<Seq<u8>, ParserError>(
        seq![0u8] + rest,
    ));
    assert(seq![0u8] + rest =~= Seq::new(n, |i: int| i as u8));
}

/// Every index of a decoded frame is a valid index into any palette of
/// at least `2^k` entries, `k` the minimum code size: a stream whose
/// palette in scope covers its root codes never yields an out-of-range
/// index.
pub proof fn lemma_indices_fit_palette(v: Seq<u8>, k: nat, entries: nat)
    requires
        forall|i: int| 0 <= i < v.len() ==> (#[trigger] v[i] as nat) < pow2(k),
        pow2(k) <= entries,
    ensures
        forall|i: int| 0 <= i < v.len() ==> (#[trigger] v[i] as nat) < entries,
{
}

/// Builds the initial dictionary: one single-byte entry for every code up
/// to and including the two control codes.
pub fn init_code_table(minimum_code_size: u32) -> (r: Vec<Vec<u8>>)
    requires
        1 <= minimum_code_size <= 8,
    ensures
        table_view(r@) == init_table(minimum_code_size as nat),
{
    let ghost k = minimum_code_size as nat;
    proof {
        lemma2_to64();
        lemma_pow2_le_256(k);
        lemma_usize_shl_is_mul(1, minimum_code_size as usize);
    }
    let count: usize = (1usize << (minimum_code_size as usize)) + 2;
    assert(count == pow2(k) + 2);
    let mut t: Vec<Vec<u8>> = Vec::new();
    let mut i: usize = 0;
    while i < count
        invariant
            i <= count,
            count == pow2(k) + 2,
            t@.len() == i,
            forall|j: int| 0 <= j < i ==> (#[trigger] t@[j])@ == seq![j as u8],
        decreases count - i,
    {
        let mut e: Vec<u8> = Vec::new();
        e.push(i as u8);
        assert(e@ =~= seq![i as u8]);
        t.push(e);
        i = i + 1;
    }
    assert(table_view(t@) =~= init_table(k));
    t
}

/// Appends a copy of `src` to `dst`.
fn push_bytes(dst: &mut Vec<u8>, src: &Vec<u8>)
    ensures
        final(dst)@ == old(dst)@ + src@,
{
    let mut i: usize = 0;
    while i < src.len()
        invariant
            i <= src@.len(),
            dst@ == old(dst)@ + src@.subrange(0, i as int),
        decreases src@.len() - i,
    {
        let b = src[i];
        dst.push(b);
        assert(dst@ =~= old(dst)@ + src@.subrange(0, i + 1));
        i = i + 1;
    }
    assert(dst@ =~= old(dst)@ + src@);
}

/// Decompresses a concatenated sub-block buffer into the emitted index
/// stream, or reports exactly how the code stream is malformed.
pub fn lzw_decode(buf: &[u8], minimum_code_size: u32) -> (r: Result<Vec<u8>, ParserError>)
    requires
        1 <= minimum_code_size <= 8,
        buf@.len() * 8 <= usize::MAX,
    ensures
        result_matches(r, lzw_spec(buf@, minimum_code_size as nat)),
        r matches Ok(v) ==> forall|i: int|
            0 <= i < v@.len() ==> (#[trigger] v@[i] as nat) < pow2(minimum_code_size as nat),
{
    let ghost k = minimum_code_size as nat;
    proof {
        lemma2_to64();
        lemma_pow2_le_256(k);
        lemma_u16_shl_is_mul(1, minimum_code_size as u16);
        lemma_init_table_ok(k);
    }
    let clear: u16 = 1u16 << (minimum_code_size as u16);
    let eoi: u16 = clear + 1;
    assert(clear == pow2(k));

    let mut table = init_code_table(minimum_code_size);
    let mut width: u32 = minimum_code_size + 1;
    let mut reader = BitReader::new(buf);
    let mut out: Vec<u8> = Vec::new();
    let mut prev: Option<usize> = None;

    assert(out@ + lzw_spec(buf@, k)->Ok_0 =~= lzw_spec(buf@, k)->Ok_0);

    loop
        invariant
            1 <= minimum_code_size <= 8,
            k == minimum_code_size as nat,
            clear == pow2(k),
            eoi == pow2(k) + 1,
            reader.wf(),
            reader.spec_buf() == buf@,
            2 <= width <= 12,
            table_ok(k, table_view(table@)),
            prev_ok(
                k,
                table_view(table@),
                match prev {
                    Some(p) => Some(p as int),
                    None => None,
                },
            ),
            lzw_run_compose(
                out@,
                lzw_run(
                    buf@,
                    k,
                    reader.spec_pos(),
                    width as nat,
                    table_view(table@),
                    match prev {
                        Some(p) => Some(p as int),
                        None => None,
                    },
                ),
            ) == lzw_spec(buf@, k),
            forall|i: int| 0 <= i < out@.len() ==> (#[trigger] out@[i] as nat) < pow2(k),
        decreases 8 * buf@.len() - reader.spec_pos(),
    {
        let ghost pos0 = reader.spec_pos();
        let ghost tv = table_view(table@);
        let ghost prevs: Option<int> = match prev {
            Some(p) => Some(p as int),
            None => None,
        };
        let ghost state_run = lzw_run(buf@, k, pos0, width as nat, tv, prevs);
        match reader.next(width) {
            None => {
                assert(state_run == Err::<Seq<u8>, ParserError>(ParserError::BitStreamTruncated));
                return Err(ParserError::BitStreamTruncated);
            },
            Some(code64) => {
                proof {
                    lemma2_to64();
                    lemma_bits_value_bound(buf@, pos0, width as nat);
                    if (width as nat) < 12 {
                        lemma_pow2_strictly_increases(width as nat, 12);
                    }
                }
                assert(code64 < 4096);
                let code = code64 as usize;
                let ghost c = code as int;
                let ghost p2 = pos0 + width;
                if code == clear as usize {
                    table = init_code_table(minimum_code_size);
                    width = minimum_code_size + 1;
                    prev = None;
                    proof {
                        lemma_init_table_ok(k);
                        assert(state_run == lzw_run(
                            buf@,
                            k,
                            p2,
                            (k + 1) as nat,
                            init_table(k),
                            None,
                        ));
                    }
                } else if code == eoi as usize {
                    assert(state_run == Ok::<Seq<u8>, ParserError>(Seq::empty()));
                    assert(out@ + Seq::<u8>::empty() =~= out@);
                    return Ok(out);
                } else {
                    match prev {
                        None => {
                            if code < clear as usize {
                                let ghost out0 = out@;
                                out.push(code as u8);
                                prev = Some(code);
                                proof {
                                    let rec = lzw_run(buf@, k, p2, width as nat, tv, Some(c));
                                    assert(state_run == lzw_run_compose(seq![c as u8], rec));
                                    lemma_compose_assoc(out0, seq![c as u8], rec);
                                    assert(out@ =~= out0 + seq![c as u8]);
                                }
                            } else {
                                assert(state_run == Err::<Seq<u8>, ParserError>(
                                    ParserError::InvalidCode,
                                ));
                                return Err(ParserError::InvalidCode);
                            }
                        },
                        Some(pc) => {
                            if table.len() >= 4096 {
                                assert(state_run == Err::<Seq<u8>, ParserError>(
                                    ParserError::CodeWidthOverflow,
                                ));
                                return Err(ParserError::CodeWidthOverflow);
                            } else if code < table.len() {
                                let ghost out0 = out@;
                                let mut newe = Vec::new();
                                push_bytes(&mut newe, &table[pc]);
                                let first = table[code][0];
                                newe.push(first);
                                assert(newe@ =~= tv[pc as int] + seq![tv[c][0]]);
                                push_bytes(&mut out, &table[code]);
                                let ghost newes = newe@;
                                table.push(newe);
                                proof {
                                    let t2 = table_view(table@);
                                    assert(t2 =~= tv.push(newes));
                                    lemma_push_preserves_table_ok(k, tv, newes);
                                    let w2 = if tv.push(newes).len() == pow2(width as nat)
                                        && (width as nat) < 12 {
                                        (width + 1) as nat
                                    } else {
                                        width as nat
                                    };
                                    let rec = lzw_run(buf@, k, p2, w2, t2, Some(c));
                                    assert(state_run == lzw_run_compose(tv[c], rec));
                                    lemma_compose_assoc(out0, tv[c], rec);
                                    assert(out@ == out0 + tv[c]);
                                }
                            } else if code == table.len() {
                                let ghost out0 = out@;
                                let mut newe = Vec::new();
                                push_bytes(&mut newe, &table[pc]);
                                let first = newe[0];
                                newe.push(first);
                                assert(newe@ =~= tv[pc as int] + seq![tv[pc as int][0]]);
                                push_bytes(&mut out, &newe);
                                let ghost newes = newe@;
                                table.push(newe);
                                proof {
                                    let t2 = table_view(table@);
                                    assert(t2 =~= tv.push(newes));
                                    lemma_push_preserves_table_ok(k, tv, newes);
                                    let w2 = if tv.push(newes).len() == pow2(width as nat)
                                        && (width as nat) < 12 {
                                        (width + 1) as nat
                                    } else {
                                        width as nat
                                    };
                                    let rec = lzw_run(buf@, k, p2, w2, t2, Some(c));
                                    assert(state_run == lzw_run_compose(newes, rec));
                                    lemma_compose_assoc(out0, newes, rec);
                                    assert(out@ == out0 + newes);
                                }
                            } else {
                                assert(state_run == Err::<Seq<u8>, ParserError>(
                                    ParserError::InvalidCode,
                                ));
                                return Err(ParserError::InvalidCode);
                            }
                            proof {
                                lemma_usize_shl_is_mul(1, width as usize);
                            }
                            if table.len() == (1usize << (width as usize)) && width < 12 {
                                width = width + 1;
                            }
                            prev = Some(code);
                        },
                    }
                }
            },
        }
    }
}

/// Prefixes already-emitted output onto the rest of a run.
spec fn lzw_run_compose(
    prefix: Seq<u8>,
    r: Result<Seq<u8>, ParserError>,
) -> Result<Seq<u8>, ParserError> {
    match r {
        Ok(v) => Ok(prefix + v),
        Err(e) => Err(e),
    }
}

/// Composing with two prefixes in turn equals composing with their
/// concatenation.
proof fn lemma_compose_assoc(a: Seq<u8>, b: Seq<u8>, r: Result<Seq<u8>, ParserError>)
    ensures
        lzw_run_compose(a, lzw_run_compose(b, r)) == lzw_run_compose(a + b, r),
{
    match r {
        Ok(v) => {
            assert(a + (b + v) =~= (a + b) + v);
        },
        Err(_) => {},
    }
}

} // verus!
