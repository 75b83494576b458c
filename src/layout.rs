//! The committed byte layout: fixed offsets, no padding, every multi-byte
//! integer big-endian. The aggregate takes bytes 0 to 60, the featured
//! position bytes 60 to 110.

use vstd::prelude::*;
use vstd::string::*;
use vstd::arithmetic::div_mod::{lemma_mod_breakdown, lemma_small_mod};

use crate::aggregate::{AggregateResult, AggregateView};
use crate::featured::FeaturedResult;

verus! {

/// Length of the aggregate-only layout.
pub const AGGREGATE_LEN: usize = 60;

/// Length of the layout with the featured position.
pub const PUBLIC_VALUES_LEN: usize = 110;

/// The ways a committed buffer can fail to decode.
#[derive(Clone, Copy, Debug, PartialEq, Eq)]
pub enum DecodeError {
    /// The buffer holds `len` bytes where the layout needs `required`.
    TooShort { len: usize, required: usize },
}

/// `256` to the power `n`.
pub open spec fn pow256(n: nat) -> nat
    decreases n,
{
    if n == 0 {
        1
    } else {
        256 * pow256((n - 1) as nat)
    }
}

/// The `n` low bytes of `v`, most significant first.
pub open spec fn be_bytes(v: nat, n: nat) -> Seq<u8>
    decreases n,
{
    if n == 0 {
        Seq::empty()
    } else {
        be_bytes(v / 256, (n - 1) as nat).push((v % 256) as u8)
    }
}

/// The number that bytes spell, most significant first.
pub open spec fn be_value(s: Seq<u8>) -> nat
    decreases s.len(),
{
    if s.len() == 0 {
        0
    } else {
        be_value(s.drop_last()) * 256 + s.last() as nat
    }
}

/// The 64-bit two's complement pattern of `v`, as an unsigned number.
pub open spec fn twos_complement(v: i64) -> nat {
    if v < 0 {
        (v + 0x1_0000_0000_0000_0000) as nat
    } else {
        v as nat
    }
}

/// The signed value of a 64-bit two's complement pattern.
pub open spec fn from_twos_complement(u: nat) -> i64 {
    if u >= 0x8000_0000_0000_0000 {
        (u - 0x1_0000_0000_0000_0000) as i64
    } else {
        u as i64
    }
}

pub open spec fn flag_byte(b: bool) -> u8 {
    if b {
        1
    } else {
        0
    }
}

/// Bytes 0 to 60: address, trade count, win count, total profit (signed),
/// total collateral, first and last timestamp.
pub open spec fn aggregate_bytes(a: AggregateView) -> Seq<u8> {
    a.trader + be_bytes(a.trade_count as nat, 4) + be_bytes(a.win_count as nat, 4) + be_bytes(
        twos_complement(a.total_pnl_micros),
        8,
    ) + be_bytes(a.total_collateral_micros as nat, 8) + be_bytes(a.start_timestamp as nat, 8)
        + be_bytes(a.end_timestamp as nat, 8)
}

/// Bytes 60 to 110: trade id, pair index, direction, leverage, collateral,
/// entry price, open flag, timestamp.
pub open spec fn featured_bytes(f: FeaturedResult) -> Seq<u8> {
    be_bytes(f.trade_id as nat, 8) + be_bytes(f.pair_index as nat, 4) + seq![flag_byte(f.is_buy)]
        + be_bytes(f.leverage_hundredths as nat, 4) + be_bytes(f.collateral_micros as nat, 8)
        + be_bytes(f.entry_price as nat, 16) + seq![flag_byte(f.is_open)] + be_bytes(
        f.timestamp as nat,
        8,
    )
}

pub open spec fn public_values_bytes(a: AggregateView, f: FeaturedResult) -> Seq<u8> {
    aggregate_bytes(a) + featured_bytes(f)
}

/// The aggregate that the first 60 bytes of `s` hold.
pub open spec fn aggregate_view_from(s: Seq<u8>) -> AggregateView {
    AggregateView {
        trader: s.subrange(0, 20),
        trade_count: be_value(s.subrange(20, 24)) as u32,
        win_count: be_value(s.subrange(24, 28)) as u32,
        total_pnl_micros: from_twos_complement(be_value(s.subrange(28, 36))),
        total_collateral_micros: be_value(s.subrange(36, 44)) as u64,
        start_timestamp: be_value(s.subrange(44, 52)) as u64,
        end_timestamp: be_value(s.subrange(52, 60)) as u64,
    }
}

/// The featured position that bytes 60 to 110 of `s` hold; a flag is set
/// when its byte is 1.
pub open spec fn featured_from(s: Seq<u8>) -> FeaturedResult {
    FeaturedResult {
        trade_id: be_value(s.subrange(60, 68)) as u64,
        pair_index: be_value(s.subrange(68, 72)) as u32,
        is_buy: s[72] == 1,
        leverage_hundredths: be_value(s.subrange(73, 77)) as u32,
        collateral_micros: be_value(s.subrange(77, 85)) as u64,
        entry_price: be_value(s.subrange(85, 101)) as u128,
        is_open: s[101] == 1,
        timestamp: be_value(s.subrange(102, 110)) as u64,
    }
}

proof fn lemma_be_bytes_len(v: nat, n: nat)
    ensures
        be_bytes(v, n).len() == n,
    decreases n,
{
    if n > 0 {
        lemma_be_bytes_len(v / 256, (n - 1) as nat);
    }
}

proof fn lemma_be_value_bound(s: Seq<u8>)
    ensures
        be_value(s) < pow256(s.len()),
    decreases s.len(),
{
    if s.len() > 0 {
        lemma_be_value_bound(s.drop_last());
    }
}

proof fn lemma_pow256_mono(i: nat, j: nat)
    requires
        i <= j,
    ensures
        pow256(i) <= pow256(j),
    decreases j,
{
    if i < j {
        lemma_pow256_mono(i, (j - 1) as nat);
    }
}

proof fn lemma_pow256_values()
    ensures
        pow256(4) == 0x1_0000_0000,
        pow256(8) == 0x1_0000_0000_0000_0000,
        pow256(16) == 0x1_0000_0000_0000_0000_0000_0000_0000_0000,
{
    reveal_with_fuel(pow256, 17);
}

/// Reading back `n` bytes of `v` gives `v` modulo `256^n`.
proof fn lemma_be_round_trip(v: nat, n: nat)
    ensures
        be_value(be_bytes(v, n)) == v % pow256(n),
    decreases n,
{
    if n > 0 {
        let m = (n - 1) as nat;
        lemma_be_round_trip(v / 256, m);
        let s = be_bytes(v, n);
        assert(s.drop_last() =~= be_bytes(v / 256, m));
        lemma_pow256_mono(0, m);
        lemma_mod_breakdown(v as int, 256, pow256(m) as int);
    }
}

/// A value below `256^n` survives being written in `n` bytes and read back.
proof fn lemma_be_exact(v: nat, n: nat)
    requires
        v < pow256(n),
    ensures
        be_bytes(v, n).len() == n,
        be_value(be_bytes(v, n)) == v,
{
    lemma_be_bytes_len(v, n);
    lemma_be_round_trip(v, n);
    lemma_small_mod(v, pow256(n));
}

/// Decoding what was encoded gives back every field exactly, for the
/// aggregate and for the featured position alike.
pub proof fn lemma_public_values_round_trip(a: AggregateView, f: FeaturedResult)
    requires
        a.trader.len() == 20,
    ensures
        public_values_bytes(a, f).len() == PUBLIC_VALUES_LEN,
        aggregate_view_from(public_values_bytes(a, f)) == a,
        featured_from(public_values_bytes(a, f)) == f,
{
    lemma_aggregate_round_trip(a);
    lemma_pow256_values();
    lemma_be_exact(f.trade_id as nat, 8);
    lemma_be_exact(f.pair_index as nat, 4);
    lemma_be_exact(f.leverage_hundredths as nat, 4);
    lemma_be_exact(f.collateral_micros as nat, 8);
    lemma_be_exact(f.entry_price as nat, 16);
    lemma_be_exact(f.timestamp as nat, 8);
    let s = public_values_bytes(a, f);
    let head = aggregate_bytes(a);
    assert(s.subrange(0, 60) =~= head);
    assert(s.subrange(0, 20) =~= head.subrange(0, 20));
    assert(s.subrange(20, 24) =~= head.subrange(20, 24));
    assert(s.subrange(24, 28) =~= head.subrange(24, 28));
    assert(s.subrange(28, 36) =~= head.subrange(28, 36));
    assert(s.subrange(36, 44) =~= head.subrange(36, 44));
    assert(s.subrange(44, 52) =~= head.subrange(44, 52));
    assert(s.subrange(52, 60) =~= head.subrange(52, 60));
    assert(s.subrange(60, 68) =~= be_bytes(f.trade_id as nat, 8));
    assert(s.subrange(68, 72) =~= be_bytes(f.pair_index as nat, 4));
    assert(s.subrange(73, 77) =~= be_bytes(f.leverage_hundredths as nat, 4));
    assert(s.subrange(77, 85) =~= be_bytes(f.collateral_micros as nat, 8));
    assert(s.subrange(85, 101) =~= be_bytes(f.entry_price as nat, 16));
    assert(s.subrange(102, 110) =~= be_bytes(f.timestamp as nat, 8));
    assert(aggregate_view_from(s) =~= aggregate_view_from(head));
}

/// Decoding an encoded aggregate gives back every field exactly.
pub proof fn lemma_aggregate_round_trip(a: AggregateView)
    requires
        a.trader.len() == 20,
    ensures
        aggregate_bytes(a).len() == AGGREGATE_LEN,
        aggregate_view_from(aggregate_bytes(a)) == a,
{
    lemma_pow256_values();
    let pnl = twos_complement(a.total_pnl_micros);
    lemma_be_exact(a.trade_count as nat, 4);
    lemma_be_exact(a.win_count as nat, 4);
    lemma_be_exact(pnl, 8);
    lemma_be_exact(a.total_collateral_micros as nat, 8);
    lemma_be_exact(a.start_timestamp as nat, 8);
    lemma_be_exact(a.end_timestamp as nat, 8);
    let s = aggregate_bytes(a);
    assert(s.subrange(0, 20) =~= a.trader);
    assert(s.subrange(20, 24) =~= be_bytes(a.trade_count as nat, 4));
    assert(s.subrange(24, 28) =~= be_bytes(a.win_count as nat, 4));
    assert(s.subrange(28, 36) =~= be_bytes(pnl, 8));
    assert(s.subrange(36, 44) =~= be_bytes(a.total_collateral_micros as nat, 8));
    assert(s.subrange(44, 52) =~= be_bytes(a.start_timestamp as nat, 8));
    assert(s.subrange(52, 60) =~= be_bytes(a.end_timestamp as nat, 8));
}

/// Appends the `n` low bytes of `v`, most significant first.
fn push_be(out: &mut Vec<u8>, v: u128, n: usize)
    ensures
        final(out)@ == old(out)@ + be_bytes(v as nat, n as nat),
    decreases n,
{
    if n > 0 {
        push_be(out, v / 256, n - 1);
        out.push((v % 256) as u8);
        assert(final(out)@ =~= old(out)@ + be_bytes(v as nat, n as nat));
    } else {
        assert(final(out)@ =~= old(out)@ + be_bytes(v as nat, n as nat));
    }
}

/// Reads `n` bytes from `start` as a big-endian number.
fn read_be(bytes: &[u8], start: usize, n: usize) -> (r: u128)
    requires
        start + n <= bytes@.len(),
        start + n <= usize::MAX,
        n <= 16,
    ensures
        r == be_value(bytes@.subrange(start as int, start + n)),
        r < pow256(n as nat),
{
    let mut acc: u128 = 0;
    let mut i: usize = 0;
    while i < n
        invariant
            i <= n <= 16,
            start + n <= bytes@.len(),
            start + n <= usize::MAX,
            acc == be_value(bytes@.subrange(start as int, start + i)),
        decreases n - i,
    {
        proof {
            lemma_be_value_bound(bytes@.subrange(start as int, start + i));
            lemma_pow256_mono((i + 1) as nat, 16);
            lemma_pow256_values();
        }
        let ghost next = bytes@.subrange(start as int, start + i + 1);
        assert(next.drop_last() =~= bytes@.subrange(start as int, start + i));
        acc = acc * 256 + bytes[start + i] as u128;
        i = i + 1;
    }
    proof {
        lemma_be_value_bound(bytes@.subrange(start as int, start + n));
    }
    acc
}

fn encode_aggregate_into(out: &mut Vec<u8>, a: &AggregateResult)
    ensures
        final(out)@ == old(out)@ + aggregate_bytes(a@),
{
    let ghost start = out@;
    let mut i: usize = 0;
    while i < 20
        invariant
            i <= 20,
            a.trader@.len() == 20,
            out@ == start + a.trader@.subrange(0, i as int),
        decreases 20 - i,
    {
        out.push(a.trader[i]);
        i = i + 1;
        assert(out@ =~= start + a.trader@.subrange(0, i as int));
    }
    assert(a.trader@.subrange(0, 20) =~= a.trader@);
    let pnl: u128 = if a.total_pnl_micros < 0 {
        (a.total_pnl_micros as i128 + 0x1_0000_0000_0000_0000) as u128
    } else {
        a.total_pnl_micros as u128
    };
    push_be(out, a.trade_count as u128, 4);
    push_be(out, a.win_count as u128, 4);
    push_be(out, pnl, 8);
    push_be(out, a.total_collateral_micros as u128, 8);
    push_be(out, a.start_timestamp as u128, 8);
    push_be(out, a.end_timestamp as u128, 8);
    assert(out@ =~= start + aggregate_bytes(a@));
}

/// The aggregate-only commitment: the 60 bytes of [`aggregate_bytes`].
pub fn encode_aggregate(a: &AggregateResult) -> (r: Vec<u8>)
    ensures
        r@ == aggregate_bytes(a@),
        r@.len() == AGGREGATE_LEN,
{
    let mut out: Vec<u8> = Vec::new();
    encode_aggregate_into(&mut out, a);
    assert(out@ =~= aggregate_bytes(a@));
    proof {
        lemma_aggregate_round_trip(a@);
    }
    out
}

/// The full commitment: the 60 aggregate bytes followed by the 50 bytes of
/// the featured position.
pub fn encode_public_values(a: &AggregateResult, f: &FeaturedResult) -> (r: Vec<u8>)
    ensures
        r@ == public_values_bytes(a@, *f),
        r@.len() == PUBLIC_VALUES_LEN,
{
    let mut out: Vec<u8> = Vec::new();
    encode_aggregate_into(&mut out, a);
    let ghost head = out@;
    push_be(&mut out, f.trade_id as u128, 8);
    push_be(&mut out, f.pair_index as u128, 4);
    out.push(if f.is_buy { 1u8 } else { 0u8 });
    push_be(&mut out, f.leverage_hundredths as u128, 4);
    push_be(&mut out, f.collateral_micros as u128, 8);
    push_be(&mut out, f.entry_price, 16);
    out.push(if f.is_open { 1u8 } else { 0u8 });
    push_be(&mut out, f.timestamp as u128, 8);
    assert(out@ =~= public_values_bytes(a@, *f));
    proof {
        lemma_public_values_round_trip(a@, *f);
    }
    out
}

fn decode_aggregate_fields(bytes: &[u8]) -> (r: AggregateResult)
    requires
        bytes@.len() >= AGGREGATE_LEN,
    ensures
        r@ == aggregate_view_from(bytes@),
{
    proof {
        lemma_pow256_values();
    }
    let mut trader = [0u8; 20];
    let mut i: usize = 0;
    while i < 20
        invariant
            i <= 20,
            bytes@.len() >= AGGREGATE_LEN,
            trader@.len() == 20,
            forall|j: int| 0 <= j < i ==> trader@[j] == bytes@[j],
        decreases 20 - i,
    {
        trader[i] = bytes[i];
        i = i + 1;
    }
    assert(trader@ =~= bytes@.subrange(0, 20));
    let pnl_bits = read_be(bytes, 28, 8);
    let total_pnl_micros: i64 = if pnl_bits >= 0x8000_0000_0000_0000 {
        (pnl_bits as i128 - 0x1_0000_0000_0000_0000) as i64
    } else {
        pnl_bits as i64
    };
    AggregateResult {
        trader,
        trade_count: read_be(bytes, 20, 4) as u32,
        win_count: read_be(bytes, 24, 4) as u32,
        total_pnl_micros,
        total_collateral_micros: read_be(bytes, 36, 8) as u64,
        start_timestamp: read_be(bytes, 44, 8) as u64,
        end_timestamp: read_be(bytes, 52, 8) as u64,
    }
}

/// Decodes the aggregate-only layout; fails when fewer than 60 bytes are given,
/// and reads the first 60 otherwise.
pub fn decode_aggregate(bytes: &[u8]) -> (r: Result<AggregateResult, DecodeError>)
    ensures
        bytes@.len() < AGGREGATE_LEN ==> r == Err::<AggregateResult, DecodeError>(
            DecodeError::TooShort { len: bytes@.len() as usize, required: AGGREGATE_LEN },
        ),
        bytes@.len() >= AGGREGATE_LEN ==> (r matches Ok(a) && a@ == aggregate_view_from(bytes@)),
{
    if bytes.len() < AGGREGATE_LEN {
        return Err(DecodeError::TooShort { len: bytes.len(), required: AGGREGATE_LEN });
    }
    Ok(decode_aggregate_fields(bytes))
}

/// Decodes the full layout; fails when fewer than 110 bytes are given, and
/// reads the first 110 otherwise.
pub fn decode_public_values(bytes: &[u8]) -> (r: Result<(AggregateResult, FeaturedResult), DecodeError>)
    ensures
        bytes@.len() < PUBLIC_VALUES_LEN ==> r == Err::<(AggregateResult, FeaturedResult), DecodeError>(
            DecodeError::TooShort { len: bytes@.len() as usize, required: PUBLIC_VALUES_LEN },
        ),
        bytes@.len() >= PUBLIC_VALUES_LEN ==> (r matches Ok((a, f)) && a@ == aggregate_view_from(
            bytes@,
        ) && f == featured_from(bytes@)),
{
    if bytes.len() < PUBLIC_VALUES_LEN {
        return Err(DecodeError::TooShort { len: bytes.len(), required: PUBLIC_VALUES_LEN });
    }
    proof {
        lemma_pow256_values();
    }
    let aggregate = decode_aggregate_fields(bytes);
    let featured = FeaturedResult {
        trade_id: read_be(bytes, 60, 8) as u64,
        pair_index: read_be(bytes, 68, 4) as u32,
        is_buy: bytes[72] == 1,
        leverage_hundredths: read_be(bytes, 73, 4) as u32,
        collateral_micros: read_be(bytes, 77, 8) as u64,
        entry_price: read_be(bytes, 85, 16),
        is_open: bytes[101] == 1,
        timestamp: read_be(bytes, 102, 8) as u64,
    };
    Ok((aggregate, featured))
}

/// The digits `0`-`9`, `a`-`f` for the values 0 to 15.
pub open spec fn lower_hex_char(v: nat) -> char {
    if v < 10 {
        (0x30 + v) as char
    } else {
        (0x57 + v) as char
    }
}

/// Two lowercase hex digits per byte, high half first.
pub open spec fn lower_hex(b: Seq<u8>) -> Seq<char>
    decreases b.len(),
{
    if b.len() == 0 {
        Seq::empty()
    } else {
        lower_hex(b.drop_last()) + seq![
            lower_hex_char(b.last() as nat / 16),
            lower_hex_char(b.last() as nat % 16),
        ]
    }
}

/// Relies on hex::encode: each byte becomes two lowercase hex digits, high
/// half first, in the order of the bytes.
#[verifier::external_body]
fn hex_encode(b: &[u8]) -> (r: String)
    ensures
        r@ == lower_hex(b@),
{
    hex::encode(b)
}

/// The trader's address as text: `0x` and two lowercase hex digits per byte.
pub fn trader_hex(trader: &[u8; 20]) -> (r: String)
    ensures
        r@ == seq!['0', 'x'] + lower_hex(trader@),
{
    let digits = hex_encode(trader.as_slice());
    let mut text = String::from_str("0x");
    text.append(digits.as_str());
    proof {
        reveal_strlit("0x");
    }
    text
}

} // verus!
