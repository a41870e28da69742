use vstd::prelude::*;

use crate::song::{name_wf, Note, Song, SongModel};

verus! {

// ---------------------------------------------------------------------------
// The persisted song format.
//
// A song file is a single JSON object in a fixed, compact field order:
//
//   {"name":"...","id":N,"left_keys":[{"time":N,"holding":N},...],
//    "up_keys":[...],"bottom_keys":[...],"right_keys":[...],
//    "end":N,"sync":N,"bpm":N}
//
// where `id`, `sync` and `bpm` may each be `null`, and `sync` may also be
// absent in older files.  The serializer always emits exactly this shape;
// the parser reads it back and is proved below to invert the serializer.
// ---------------------------------------------------------------------------
// ASCII bytes used by the format.
pub const LBRACE: u8 = 0x7b;

pub const RBRACE: u8 = 0x7d;

pub const LBRACK: u8 = 0x5b;

pub const RBRACK: u8 = 0x5d;

pub const QUOTE: u8 = 0x22;

pub const COLON: u8 = 0x3a;

pub const COMMA: u8 = 0x2c;

pub const MINUS: u8 = 0x2d;

pub const DIGIT0: u8 = 0x30;

// ---------------------------------------------------------------------------
// Literal fragments of the format.
// ---------------------------------------------------------------------------
/// `{"name":"`
pub open spec fn lit_head() -> Seq<u8> {
    seq![LBRACE, QUOTE, 0x6e, 0x61, 0x6d, 0x65, QUOTE, COLON, QUOTE]
}

/// `,"id":`
pub open spec fn lit_id() -> Seq<u8> {
    seq![COMMA, QUOTE, 0x69, 0x64, QUOTE, COLON]
}

/// `,"left_keys":`
pub open spec fn lit_left() -> Seq<u8> {
    seq![COMMA, QUOTE, 0x6c, 0x65, 0x66, 0x74, 0x5f, 0x6b, 0x65, 0x79, 0x73, QUOTE, COLON]
}

/// `,"up_keys":`
pub open spec fn lit_up() -> Seq<u8> {
    seq![COMMA, QUOTE, 0x75, 0x70, 0x5f, 0x6b, 0x65, 0x79, 0x73, QUOTE, COLON]
}

/// `,"bottom_keys":`
pub open spec fn lit_bottom() -> Seq<u8> {
    seq![
        COMMA,
        QUOTE,
        0x62,
        0x6f,
        0x74,
        0x74,
        0x6f,
        0x6d,
        0x5f,
        0x6b,
        0x65,
        0x79,
        0x73,
        QUOTE,
        COLON,
    ]
}

/// `,"right_keys":`
pub open spec fn lit_right() -> Seq<u8> {
    seq![COMMA, QUOTE, 0x72, 0x69, 0x67, 0x68, 0x74, 0x5f, 0x6b, 0x65, 0x79, 0x73, QUOTE, COLON]
}

/// `,"end":`
pub open spec fn lit_end() -> Seq<u8> {
    seq![COMMA, QUOTE, 0x65, 0x6e, 0x64, QUOTE, COLON]
}

/// `,"sync":`
pub open spec fn lit_sync() -> Seq<u8> {
    seq![COMMA, QUOTE, 0x73, 0x79, 0x6e, 0x63, QUOTE, COLON]
}

/// `,"bpm":`
pub open spec fn lit_bpm() -> Seq<u8> {
    seq![COMMA, QUOTE, 0x62, 0x70, 0x6d, QUOTE, COLON]
}

/// `{"time":`
pub open spec fn lit_time() -> Seq<u8> {
    seq![LBRACE, QUOTE, 0x74, 0x69, 0x6d, 0x65, QUOTE, COLON]
}

/// `,"holding":`
pub open spec fn lit_holding() -> Seq<u8> {
    seq![COMMA, QUOTE, 0x68, 0x6f, 0x6c, 0x64, 0x69, 0x6e, 0x67, QUOTE, COLON]
}

/// `null`
pub open spec fn lit_null() -> Seq<u8> {
    seq![0x6e, 0x75, 0x6c, 0x6c]
}

// ---------------------------------------------------------------------------
// Serialization, specified.
// ---------------------------------------------------------------------------
/// The decimal digits of a non-negative integer, most significant first.
pub open spec fn dec_nat(n: int) -> Seq<u8>
    decreases n,
{
    if n < 0 {
        Seq::empty()
    } else if n < 10 {
        seq![(DIGIT0 + n) as u8]
    } else {
        dec_nat(n / 10).push((DIGIT0 + n % 10) as u8)
    }
}

pub open spec fn ser_i128(n: i128) -> Seq<u8> {
    if n < 0 {
        seq![MINUS] + dec_nat(-(n as int))
    } else {
        dec_nat(n as int)
    }
}

pub open spec fn ser_opt_i128(o: Option<i128>) -> Seq<u8> {
    match o {
        Option::None => lit_null(),
        Option::Some(v) => ser_i128(v),
    }
}

pub open spec fn ser_opt_u128(o: Option<u128>) -> Seq<u8> {
    match o {
        Option::None => lit_null(),
        Option::Some(v) => dec_nat(v as int),
    }
}

pub open spec fn ser_note(nt: Note) -> Seq<u8> {
    lit_time() + dec_nat(nt.time as int) + lit_holding() + dec_nat(nt.holding as int)
        + seq![RBRACE]
}

/// The notes after the first one, each preceded by a comma, then the closing
/// bracket.
pub open spec fn ser_lane_rest(l: Seq<Note>) -> Seq<u8>
    decreases l.len(),
{
    if l.len() == 0 {
        seq![RBRACK]
    } else {
        seq![COMMA] + ser_note(l[0]) + ser_lane_rest(l.skip(1))
    }
}

pub open spec fn ser_lane(l: Seq<Note>) -> Seq<u8> {
    if l.len() == 0 {
        seq![LBRACK, RBRACK]
    } else {
        seq![LBRACK] + ser_note(l[0]) + ser_lane_rest(l.skip(1))
    }
}

/// The full serialized form of a song, written as the header fragment
/// followed by each remaining field in order.
pub open spec fn ser_song(m: SongModel) -> Seq<u8> {
    lit_head() + (m.name + (seq![QUOTE] + (lit_id() + (ser_opt_i128(m.id) + (lit_left()
        + (ser_lane(m.left) + (lit_up() + (ser_lane(m.up) + (lit_bottom() + (ser_lane(m.bottom)
        + (lit_right() + (ser_lane(m.right) + (lit_end() + (dec_nat(m.end as int) + (lit_sync()
        + (ser_opt_i128(m.sync) + (lit_bpm() + (ser_opt_u128(m.bpm)
        + seq![RBRACE]))))))))))))))))))
}

// ---------------------------------------------------------------------------
// Executable literal values.
// ---------------------------------------------------------------------------
fn lit_head_vec() -> (v: Vec<u8>)
    ensures
        v@ == lit_head(),
{
    let mut v: Vec<u8> = Vec::new();
    v.push(LBRACE);
    v.push(QUOTE);
    v.push(0x6e);
    v.push(0x61);
    v.push(0x6d);
    v.push(0x65);
    v.push(QUOTE);
    v.push(COLON);
    v.push(QUOTE);
    proof {
        assert(v@ =~= lit_head());
    }
    v
}

fn lit_id_vec() -> (v: Vec<u8>)
    ensures
        v@ == lit_id(),
{
    let mut v: Vec<u8> = Vec::new();
    v.push(COMMA);
    v.push(QUOTE);
    v.push(0x69);
    v.push(0x64);
    v.push(QUOTE);
    v.push(COLON);
    proof {
        assert(v@ =~= lit_id());
    }
    v
}

fn lit_left_vec() -> (v: Vec<u8>)
    ensures
        v@ == lit_left(),
{
    let mut v: Vec<u8> = Vec::new();
    v.push(COMMA);
    v.push(QUOTE);
    v.push(0x6c);
    v.push(0x65);
    v.push(0x66);
    v.push(0x74);
    v.push(0x5f);
    v.push(0x6b);
    v.push(0x65);
    v.push(0x79);
    v.push(0x73);
    v.push(QUOTE);
    v.push(COLON);
    proof {
        assert(v@ =~= lit_left());
    }
    v
}

fn lit_up_vec() -> (v: Vec<u8>)
    ensures
        v@ == lit_up(),
{
    let mut v: Vec<u8> = Vec::new();
    v.push(COMMA);
    v.push(QUOTE);
    v.push(0x75);
    v.push(0x70);
    v.push(0x5f);
    v.push(0x6b);
    v.push(0x65);
    v.push(0x79);
    v.push(0x73);
    v.push(QUOTE);
    v.push(COLON);
    proof {
        assert(v@ =~= lit_up());
    }
    v
}

fn lit_bottom_vec() -> (v: Vec<u8>)
    ensures
        v@ == lit_bottom(),
{
    let mut v: Vec<u8> = Vec::new();
    v.push(COMMA);
    v.push(QUOTE);
    v.push(0x62);
    v.push(0x6f);
    v.push(0x74);
    v.push(0x74);
    v.push(0x6f);
    v.push(0x6d);
    v.push(0x5f);
    v.push(0x6b);
    v.push(0x65);
    v.push(0x79);
    v.push(0x73);
    v.push(QUOTE);
    v.push(COLON);
    proof {
        assert(v@ =~= lit_bottom());
    }
    v
}

fn lit_right_vec() -> (v: Vec<u8>)
    ensures
        v@ == lit_right(),
{
    let mut v: Vec<u8> = Vec::new();
    v.push(COMMA);
    v.push(QUOTE);
    v.push(0x72);
    v.push(0x69);
    v.push(0x67);
    v.push(0x68);
    v.push(0x74);
    v.push(0x5f);
    v.push(0x6b);
    v.push(0x65);
    v.push(0x79);
    v.push(0x73);
    v.push(QUOTE);
    v.push(COLON);
    proof {
        assert(v@ =~= lit_right());
    }
    v
}

fn lit_end_vec() -> (v: Vec<u8>)
    ensures
        v@ == lit_end(),
{
    let mut v: Vec<u8> = Vec::new();
    v.push(COMMA);
    v.push(QUOTE);
    v.push(0x65);
    v.push(0x6e);
    v.push(0x64);
    v.push(QUOTE);
    v.push(COLON);
    proof {
        assert(v@ =~= lit_end());
    }
    v
}

fn lit_sync_vec() -> (v: Vec<u8>)
    ensures
        v@ == lit_sync(),
{
    let mut v: Vec<u8> = Vec::new();
    v.push(COMMA);
    v.push(QUOTE);
    v.push(0x73);
    v.push(0x79);
    v.push(0x6e);
    v.push(0x63);
    v.push(QUOTE);
    v.push(COLON);
    proof {
        assert(v@ =~= lit_sync());
    }
    v
}

fn lit_bpm_vec() -> (v: Vec<u8>)
    ensures
        v@ == lit_bpm(),
{
    let mut v: Vec<u8> = Vec::new();
    v.push(COMMA);
    v.push(QUOTE);
    v.push(0x62);
    v.push(0x70);
    v.push(0x6d);
    v.push(QUOTE);
    v.push(COLON);
    proof {
        assert(v@ =~= lit_bpm());
    }
    v
}

fn lit_time_vec() -> (v: Vec<u8>)
    ensures
        v@ == lit_time(),
{
    let mut v: Vec<u8> = Vec::new();
    v.push(LBRACE);
    v.push(QUOTE);
    v.push(0x74);
    v.push(0x69);
    v.push(0x6d);
    v.push(0x65);
    v.push(QUOTE);
    v.push(COLON);
    proof {
        assert(v@ =~= lit_time());
    }
    v
}

fn lit_holding_vec() -> (v: Vec<u8>)
    ensures
        v@ == lit_holding(),
{
    let mut v: Vec<u8> = Vec::new();
    v.push(COMMA);
    v.push(QUOTE);
    v.push(0x68);
    v.push(0x6f);
    v.push(0x6c);
    v.push(0x64);
    v.push(0x69);
    v.push(0x6e);
    v.push(0x67);
    v.push(QUOTE);
    v.push(COLON);
    proof {
        assert(v@ =~= lit_holding());
    }
    v
}

fn lit_null_vec() -> (v: Vec<u8>)
    ensures
        v@ == lit_null(),
{
    let mut v: Vec<u8> = Vec::new();
    v.push(0x6e);
    v.push(0x75);
    v.push(0x6c);
    v.push(0x6c);
    proof {
        assert(v@ =~= lit_null());
    }
    v
}

// ---------------------------------------------------------------------------
// The serializer.
// ---------------------------------------------------------------------------
fn push_all(out: &mut Vec<u8>, p: &Vec<u8>)
    ensures
        final(out)@ == old(out)@ + p@,
{
    let n = p.len();
    let mut i: usize = 0;
    while i < n
        invariant
            i <= n,
            n == p@.len(),
            out@ == old(out)@ + p@.take(i as int),
        decreases n - i,
    {
        out.push(p[i]);
        proof {
            assert(old(out)@ + p@.take(i as int) + seq![p@[i as int]] =~= old(out)@ + p@.take(
                i as int + 1,
            ));
        }
        i = i + 1;
    }
    proof {
        assert(p@.take(n as int) =~= p@);
    }
}

/// Appends the decimal digits of `n`.
fn push_u128(out: &mut Vec<u8>, n: u128)
    ensures
        final(out)@ == old(out)@ + dec_nat(n as int),
{
    let mut tmp: Vec<u8> = Vec::new();
    let mut cur: u128 = n;
    if cur == 0 {
        out.push(DIGIT0);
        proof {
            assert(out@ =~= old(out)@ + dec_nat(0));
        }
        return ;
    }
    while cur > 0
        invariant
            dec_nat(n as int) == if cur > 0 {
                dec_nat(cur as int) + tmp@.reverse()
            } else {
                tmp@.reverse()
            },
        decreases cur,
    {
        let d: u8 = DIGIT0 + (cur % 10) as u8;
        proof {
            let c = cur as int;
            assert(tmp@.push(d).reverse() =~= seq![d] + tmp@.reverse());
            if c >= 10 {
                assert(dec_nat(c) == dec_nat(c / 10).push((DIGIT0 + c % 10) as u8));
                assert(dec_nat(c / 10).push(d) + tmp@.reverse() =~= dec_nat(c / 10) + (seq![d]
                    + tmp@.reverse()));
            } else {
                assert(dec_nat(c) =~= seq![d]);
                assert(c / 10 == 0);
            }
        }
        tmp.push(d);
        cur = cur / 10;
    }
    let m = tmp.len();
    let mut j: usize = m;
    while j > 0
        invariant
            j <= m,
            m == tmp@.len(),
            dec_nat(n as int) == tmp@.reverse(),
            out@ == old(out)@ + tmp@.reverse().take((m - j) as int),
        decreases j,
    {
        j = j - 1;
        out.push(tmp[j]);
        proof {
            assert(tmp@.reverse()[(m - j - 1) as int] == tmp@[j as int]);
            assert(old(out)@ + tmp@.reverse().take((m - j - 1) as int) + seq![tmp@[j as int]]
                =~= old(out)@ + tmp@.reverse().take((m - j) as int));
        }
    }
    proof {
        assert(tmp@.reverse().take(m as int) =~= tmp@.reverse());
    }
}

/// Appends a signed decimal integer.
fn push_i128(out: &mut Vec<u8>, n: i128)
    ensures
        final(out)@ == old(out)@ + ser_i128(n),
{
    if n < 0 {
        out.push(MINUS);
        let ghost mid = out@;
        // Two's-complement negation into the unsigned magnitude.
        let mag: u128 = if n == i128::MIN {
            0x8000_0000_0000_0000_0000_0000_0000_0000u128
        } else {
            (-n) as u128
        };
        proof {
            assert(mag as int == -(n as int));
        }
        push_u128(out, mag);
        proof {
            assert(old(out)@ + seq![MINUS] + dec_nat(-(n as int)) =~= old(out)@ + (seq![MINUS]
                + dec_nat(-(n as int))));
        }
    } else {
        push_u128(out, n as u128);
    }
}

fn push_opt_i128(out: &mut Vec<u8>, o: &Option<i128>)
    ensures
        final(out)@ == old(out)@ + ser_opt_i128(*o),
{
    match o {
        Option::None => {
            let p = lit_null_vec();
            push_all(out, &p);
        },
        Option::Some(v) => {
            push_i128(out, *v);
        },
    }
}

fn push_opt_u128(out: &mut Vec<u8>, o: &Option<u128>)
    ensures
        final(out)@ == old(out)@ + ser_opt_u128(*o),
{
    match o {
        Option::None => {
            let p = lit_null_vec();
            push_all(out, &p);
        },
        Option::Some(v) => {
            push_u128(out, *v);
        },
    }
}

fn push_note(out: &mut Vec<u8>, nt: &Note)
    ensures
        final(out)@ == old(out)@ + ser_note(*nt),
{
    let p = lit_time_vec();
    push_all(out, &p);
    push_u128(out, nt.time);
    let p2 = lit_holding_vec();
    push_all(out, &p2);
    push_u128(out, nt.holding);
    out.push(RBRACE);
    proof {
        assert(out@ =~= old(out)@ + ser_note(*nt));
    }
}

fn push_lane(out: &mut Vec<u8>, l: &Vec<Note>)
    ensures
        final(out)@ == old(out)@ + ser_lane(l@),
{
    let n = l.len();
    out.push(LBRACK);
    if n == 0 {
        out.push(RBRACK);
        proof {
            assert(out@ =~= old(out)@ + ser_lane(l@));
        }
        return ;
    }
    push_note(out, &l[0]);
    let mut i: usize = 1;
    while i < n
        invariant
            1 <= i <= n,
            n == l@.len(),
            out@ + ser_lane_rest(l@.skip(i as int)) == old(out)@ + ser_lane(l@),
        decreases n - i,
    {
        let ghost pre = out@;
        out.push(COMMA);
        push_note(out, &l[i]);
        proof {
            let s = l@.skip(i as int);
            assert(s[0] == l@[i as int]);
            assert(s.skip(1) =~= l@.skip(i as int + 1));
            assert(ser_lane_rest(s) == seq![COMMA] + ser_note(l@[i as int]) + ser_lane_rest(
                l@.skip(i as int + 1),
            ));
            assert(pre + seq![COMMA] + ser_note(l@[i as int]) + ser_lane_rest(
                l@.skip(i as int + 1),
            ) =~= pre + ser_lane_rest(s));
        }
        i = i + 1;
    }
    out.push(RBRACK);
    proof {
        assert(l@.skip(n as int).len() == 0);
        assert(ser_lane_rest(l@.skip(n as int)) == seq![RBRACK]);
        assert(out@ =~= old(out)@ + ser_lane(l@));
    }
}


/// Concatenation of the song's twenty fragments, grouped either way.
proof fn lemma_ser_pieces_assoc(
    p1: Seq<u8>,
    p2: Seq<u8>,
    p3: Seq<u8>,
    p4: Seq<u8>,
    p5: Seq<u8>,
    p6: Seq<u8>,
    p7: Seq<u8>,
    p8: Seq<u8>,
    p9: Seq<u8>,
    p10: Seq<u8>,
    p11: Seq<u8>,
    p12: Seq<u8>,
    p13: Seq<u8>,
    p14: Seq<u8>,
    p15: Seq<u8>,
    p16: Seq<u8>,
    p17: Seq<u8>,
    p18: Seq<u8>,
    p19: Seq<u8>,
    p20: Seq<u8>,
)
    ensures
        (((((((((((((((((((p1 + p2) + p3) + p4) + p5) + p6) + p7) + p8) + p9) + p10) + p11) + p12) + p13) + p14) + p15) + p16) + p17) + p18) + p19) + p20) == (p1 + (p2 + (p3 + (p4 + (p5 + (p6 + (p7 + (p8 + (p9 + (p10 + (p11 + (p12 + (p13 + (p14 + (p15 + (p16 + (p17 + (p18 + (p19 + p20))))))))))))))))))),
{
    let r20 = p20;
    let r19 = p19 + r20;
    let r18 = p18 + r19;
    let r17 = p17 + r18;
    let r16 = p16 + r17;
    let r15 = p15 + r16;
    let r14 = p14 + r15;
    let r13 = p13 + r14;
    let r12 = p12 + r13;
    let r11 = p11 + r12;
    let r10 = p10 + r11;
    let r9 = p9 + r10;
    let r8 = p8 + r9;
    let r7 = p7 + r8;
    let r6 = p6 + r7;
    let r5 = p5 + r6;
    let r4 = p4 + r5;
    let r3 = p3 + r4;
    let r2 = p2 + r3;
    let r1 = p1 + r2;
    let l1 = p1;
    let l2 = l1 + p2;
    let l3 = l2 + p3;
    let l4 = l3 + p4;
    let l5 = l4 + p5;
    let l6 = l5 + p6;
    let l7 = l6 + p7;
    let l8 = l7 + p8;
    let l9 = l8 + p9;
    let l10 = l9 + p10;
    let l11 = l10 + p11;
    let l12 = l11 + p12;
    let l13 = l12 + p13;
    let l14 = l13 + p14;
    let l15 = l14 + p15;
    let l16 = l15 + p16;
    let l17 = l16 + p17;
    let l18 = l17 + p18;
    let l19 = l18 + p19;
    let l20 = l19 + p20;
    assert(l20 =~= l19 + r20);
    assert(l18 + p19 + r20 =~= l18 + r19);
    assert(l20 =~= l18 + r19);
    assert(l17 + p18 + r19 =~= l17 + r18);
    assert(l20 =~= l17 + r18);
    assert(l16 + p17 + r18 =~= l16 + r17);
    assert(l20 =~= l16 + r17);
    assert(l15 + p16 + r17 =~= l15 + r16);
    assert(l20 =~= l15 + r16);
    assert(l14 + p15 + r16 =~= l14 + r15);
    assert(l20 =~= l14 + r15);
    assert(l13 + p14 + r15 =~= l13 + r14);
    assert(l20 =~= l13 + r14);
    assert(l12 + p13 + r14 =~= l12 + r13);
    assert(l20 =~= l12 + r13);
    assert(l11 + p12 + r13 =~= l11 + r12);
    assert(l20 =~= l11 + r12);
    assert(l10 + p11 + r12 =~= l10 + r11);
    assert(l20 =~= l10 + r11);
    assert(l9 + p10 + r11 =~= l9 + r10);
    assert(l20 =~= l9 + r10);
    assert(l8 + p9 + r10 =~= l8 + r9);
    assert(l20 =~= l8 + r9);
    assert(l7 + p8 + r9 =~= l7 + r8);
    assert(l20 =~= l7 + r8);
    assert(l6 + p7 + r8 =~= l6 + r7);
    assert(l20 =~= l6 + r7);
    assert(l5 + p6 + r7 =~= l5 + r6);
    assert(l20 =~= l5 + r6);
    assert(l4 + p5 + r6 =~= l4 + r5);
    assert(l20 =~= l4 + r5);
    assert(l3 + p4 + r5 =~= l3 + r4);
    assert(l20 =~= l3 + r4);
    assert(l2 + p3 + r4 =~= l2 + r3);
    assert(l20 =~= l2 + r3);
    assert(l1 + p2 + r3 =~= l1 + r2);
    assert(l20 =~= l1 + r2);
    assert(l1 + r2 =~= r1);
}

/// Serializes a song into the persisted byte form.
#[verifier::rlimit(100)]
pub fn serialize_song(s: &Song) -> (out: Vec<u8>)
    ensures
        out@ == ser_song(s@),
{
    let mut out: Vec<u8> = Vec::new();
    let p = lit_head_vec();
    push_all(&mut out, &p);
    push_all(&mut out, &s.name);
    out.push(QUOTE);
    let p = lit_id_vec();
    push_all(&mut out, &p);
    push_opt_i128(&mut out, &s.id);
    let p = lit_left_vec();
    push_all(&mut out, &p);
    push_lane(&mut out, &s.left_keys);
    let p = lit_up_vec();
    push_all(&mut out, &p);
    push_lane(&mut out, &s.up_keys);
    let p = lit_bottom_vec();
    push_all(&mut out, &p);
    push_lane(&mut out, &s.bottom_keys);
    let p = lit_right_vec();
    push_all(&mut out, &p);
    push_lane(&mut out, &s.right_keys);
    let p = lit_end_vec();
    push_all(&mut out, &p);
    push_u128(&mut out, s.end);
    let p = lit_sync_vec();
    push_all(&mut out, &p);
    push_opt_i128(&mut out, &s.sync);
    let p = lit_bpm_vec();
    push_all(&mut out, &p);
    push_opt_u128(&mut out, &s.bpm);
    out.push(RBRACE);
    proof {
        lemma_ser_pieces_assoc(
            lit_head(),
            s.name@,
            seq![QUOTE],
            lit_id(),
            ser_opt_i128(s.id),
            lit_left(),
            ser_lane(s.left_keys@),
            lit_up(),
            ser_lane(s.up_keys@),
            lit_bottom(),
            ser_lane(s.bottom_keys@),
            lit_right(),
            ser_lane(s.right_keys@),
            lit_end(),
            dec_nat(s.end as int),
            lit_sync(),
            ser_opt_i128(s.sync),
            lit_bpm(),
            ser_opt_u128(s.bpm),
            seq![RBRACE],
        );
        assert(Seq::<u8>::empty() + lit_head() =~= lit_head());
        assert(out@ == ser_song(s@));
    }
    out
}

// ---------------------------------------------------------------------------
// Parsing, specified.
//
// Each spec parser takes the remaining input and yields the parsed value
// together with what is left, or `None` when the input does not match the
// format.
// ---------------------------------------------------------------------------
pub open spec fn is_digit(b: u8) -> bool {
    DIGIT0 <= b <= 0x39
}

/// The number of leading decimal digits.
pub open spec fn digit_run(s: Seq<u8>) -> int
    decreases s.len(),
{
    if s.len() == 0 || !is_digit(s[0]) {
        0
    } else {
        1 + digit_run(s.skip(1))
    }
}

/// The value of a digit string, most significant digit first.
pub open spec fn digits_val(s: Seq<u8>) -> int
    decreases s.len(),
{
    if s.len() == 0 {
        0
    } else {
        digits_val(s.drop_last()) * 10 + (s.last() - DIGIT0)
    }
}

pub open spec fn is_prefix(p: Seq<u8>, s: Seq<u8>) -> bool {
    p.len() <= s.len() && s.take(p.len() as int) == p
}

pub open spec fn sp_lit(s: Seq<u8>, p: Seq<u8>) -> Option<Seq<u8>> {
    if is_prefix(p, s) {
        Option::Some(s.skip(p.len() as int))
    } else {
        Option::None
    }
}

pub open spec fn sp_u128(s: Seq<u8>) -> Option<(u128, Seq<u8>)> {
    let k = digit_run(s);
    if k == 0 {
        Option::None
    } else {
        let v = digits_val(s.take(k));
        if v <= u128::MAX as int {
            Option::Some((v as u128, s.skip(k)))
        } else {
            Option::None
        }
    }
}

pub open spec fn sp_i128(s: Seq<u8>) -> Option<(i128, Seq<u8>)> {
    if s.len() > 0 && s[0] == MINUS {
        match sp_u128(s.skip(1)) {
            Option::Some((v, r)) => if v <= 0x8000_0000_0000_0000_0000_0000_0000_0000u128 {
                Option::Some(((-(v as int)) as i128, r))
            } else {
                Option::None
            },
            Option::None => Option::None,
        }
    } else {
        match sp_u128(s) {
            Option::Some((v, r)) => if v <= i128::MAX as u128 {
                Option::Some((v as i128, r))
            } else {
                Option::None
            },
            Option::None => Option::None,
        }
    }
}

pub open spec fn sp_opt_i128(s: Seq<u8>) -> Option<(Option<i128>, Seq<u8>)> {
    if is_prefix(lit_null(), s) {
        Option::Some((Option::None, s.skip(4)))
    } else {
        match sp_i128(s) {
            Option::Some((v, r)) => Option::Some((Option::Some(v), r)),
            Option::None => Option::None,
        }
    }
}

pub open spec fn sp_opt_u128(s: Seq<u8>) -> Option<(Option<u128>, Seq<u8>)> {
    if is_prefix(lit_null(), s) {
        Option::Some((Option::None, s.skip(4)))
    } else {
        match sp_u128(s) {
            Option::Some((v, r)) => Option::Some((Option::Some(v), r)),
            Option::None => Option::None,
        }
    }
}

/// A quote-terminated run of storable name bytes, the quote consumed.
pub open spec fn sp_name(s: Seq<u8>) -> Option<(Seq<u8>, Seq<u8>)>
    decreases s.len(),
{
    if s.len() == 0 {
        Option::None
    } else if s[0] == QUOTE {
        Option::Some((Seq::empty(), s.skip(1)))
    } else if crate::song::name_byte_ok(s[0]) {
        match sp_name(s.skip(1)) {
            Option::Some((nm, r)) => Option::Some((seq![s[0]] + nm, r)),
            Option::None => Option::None,
        }
    } else {
        Option::None
    }
}

pub open spec fn sp_note(s: Seq<u8>) -> Option<(Note, Seq<u8>)> {
    match sp_lit(s, lit_time()) {
        Option::Some(r1) => match sp_u128(r1) {
            Option::Some((t, r2)) => match sp_lit(r2, lit_holding()) {
                Option::Some(r3) => match sp_u128(r3) {
                    Option::Some((h, r4)) => match sp_lit(r4, seq![RBRACE]) {
                        Option::Some(r5) => Option::Some((Note { time: t, holding: h }, r5)),
                        Option::None => Option::None,
                    },
                    Option::None => Option::None,
                },
                Option::None => Option::None,
            },
            Option::None => Option::None,
        },
        Option::None => Option::None,
    }
}

proof fn lemma_sp_lit_shrinks(s: Seq<u8>, p: Seq<u8>)
    ensures
        sp_lit(s, p) matches Option::Some(r) ==> r.len() == s.len() - p.len(),
{
}

proof fn lemma_digit_run_bounds(s: Seq<u8>)
    ensures
        0 <= digit_run(s) <= s.len(),
    decreases s.len(),
{
    if s.len() > 0 && is_digit(s[0]) {
        lemma_digit_run_bounds(s.skip(1));
    }
}

proof fn lemma_sp_u128_shrinks(s: Seq<u8>)
    ensures
        sp_u128(s) matches Option::Some(v) ==> v.1.len() < s.len(),
{
    lemma_digit_run_bounds(s);
}

proof fn lemma_sp_note_shrinks(s: Seq<u8>)
    ensures
        sp_note(s) matches Option::Some(v) ==> v.1.len() < s.len(),
{
    if let Option::Some(r1) = sp_lit(s, lit_time()) {
        lemma_sp_lit_shrinks(s, lit_time());
        if let Option::Some((t, r2)) = sp_u128(r1) {
            lemma_sp_u128_shrinks(r1);
            if let Option::Some(r3) = sp_lit(r2, lit_holding()) {
                lemma_sp_lit_shrinks(r2, lit_holding());
                if let Option::Some((h, r4)) = sp_u128(r3) {
                    lemma_sp_u128_shrinks(r3);
                    if let Option::Some(r5) = sp_lit(r4, seq![RBRACE]) {
                        lemma_sp_lit_shrinks(r4, seq![RBRACE]);
                    }
                }
            }
        }
    }
}

/// The lane entries after the first note: either the closing bracket, or a
/// comma followed by another note.
pub open spec fn sp_lane_rest(s: Seq<u8>) -> Option<(Seq<Note>, Seq<u8>)>
    decreases s.len(),
    via sp_lane_rest_decreases
{
    if is_prefix(seq![RBRACK], s) {
        Option::Some((Seq::empty(), s.skip(1)))
    } else if is_prefix(seq![COMMA], s) {
        match sp_note(s.skip(1)) {
            Option::Some((nt, r)) => match sp_lane_rest(r) {
                Option::Some((l, r2)) => Option::Some((seq![nt] + l, r2)),
                Option::None => Option::None,
            },
            Option::None => Option::None,
        }
    } else {
        Option::None
    }
}

#[via_fn]
proof fn sp_lane_rest_decreases(s: Seq<u8>) {
    lemma_sp_note_shrinks(s.skip(1));
}

pub open spec fn sp_lane(s: Seq<u8>) -> Option<(Seq<Note>, Seq<u8>)> {
    match sp_lit(s, seq![LBRACK]) {
        Option::Some(r1) => if is_prefix(seq![RBRACK], r1) {
            Option::Some((Seq::empty(), r1.skip(1)))
        } else {
            match sp_note(r1) {
                Option::Some((nt, r2)) => match sp_lane_rest(r2) {
                    Option::Some((l, r3)) => Option::Some((seq![nt] + l, r3)),
                    Option::None => Option::None,
                },
                Option::None => Option::None,
            }
        },
        Option::None => Option::None,
    }
}

/// The whole song object.  `sync` and `bpm` may be absent in older files, in
/// which case they read as `None`; all remaining input must be consumed.
pub open spec fn sp_song(s: Seq<u8>) -> Option<SongModel> {
    match sp_lit(s, lit_head()) {
        Option::Some(r0) => match sp_name(r0) {
            Option::Some((name, r1)) => match sp_lit(r1, lit_id()) {
                Option::Some(r2) => match sp_opt_i128(r2) {
                    Option::Some((id, r3)) => sp_song_lanes(name, id, r3),
                    Option::None => Option::None,
                },
                Option::None => Option::None,
            },
            Option::None => Option::None,
        },
        Option::None => Option::None,
    }
}

/// The four lane lists and the `end` field.
pub open spec fn sp_song_lanes(name: Seq<u8>, id: Option<i128>, s: Seq<u8>) -> Option<SongModel> {
    match sp_lit(s, lit_left()) {
        Option::Some(r4) => match sp_lane(r4) {
            Option::Some((left, r5)) => match sp_lit(r5, lit_up()) {
                Option::Some(r6) => match sp_lane(r6) {
                    Option::Some((up, r7)) => match sp_lit(r7, lit_bottom()) {
                        Option::Some(r8) => match sp_lane(r8) {
                            Option::Some((bottom, r9)) => match sp_lit(r9, lit_right()) {
                                Option::Some(r10) => match sp_lane(r10) {
                                    Option::Some((right, r11)) => match sp_lit(r11, lit_end()) {
                                        Option::Some(r12) => match sp_u128(r12) {
                                            Option::Some((end, r13)) => sp_song_tail(
                                                name,
                                                id,
                                                left,
                                                up,
                                                bottom,
                                                right,
                                                end,
                                                r13,
                                            ),
                                            Option::None => Option::None,
                                        },
                                        Option::None => Option::None,
                                    },
                                    Option::None => Option::None,
                                },
                                Option::None => Option::None,
                            },
                            Option::None => Option::None,
                        },
                        Option::None => Option::None,
                    },
                    Option::None => Option::None,
                },
                Option::None => Option::None,
            },
            Option::None => Option::None,
        },
        Option::None => Option::None,
    }
}

/// The optional `sync` and `bpm` fields and the closing brace.
pub open spec fn sp_song_tail(
    name: Seq<u8>,
    id: Option<i128>,
    left: Seq<Note>,
    up: Seq<Note>,
    bottom: Seq<Note>,
    right: Seq<Note>,
    end: u128,
    r: Seq<u8>,
) -> Option<SongModel> {
    let (sync, rs) = if is_prefix(lit_sync(), r) {
        match sp_opt_i128(r.skip(lit_sync().len() as int)) {
            Option::Some((v, rr)) => (Option::Some(v), rr),
            Option::None => (Option::None, r),
        }
    } else {
        (Option::Some(Option::<i128>::None), r)
    };
    match sync {
        Option::None => Option::None,
        Option::Some(sync_v) => {
            let (bpm, rb) = if is_prefix(lit_bpm(), rs) {
                match sp_opt_u128(rs.skip(lit_bpm().len() as int)) {
                    Option::Some((v, rr)) => (Option::Some(v), rr),
                    Option::None => (Option::None, rs),
                }
            } else {
                (Option::Some(Option::<u128>::None), rs)
            };
            match bpm {
                Option::None => Option::None,
                Option::Some(bpm_v) => {
                    if rb.len() == 1 && rb[0] == RBRACE {
                        Option::Some(
                            SongModel {
                                name,
                                id,
                                left,
                                up,
                                bottom,
                                right,
                                end,
                                sync: sync_v,
                                bpm: bpm_v,
                            },
                        )
                    } else {
                        Option::None
                    }
                },
            }
        },
    }
}

// ---------------------------------------------------------------------------
// The parser inverts the serializer.
// ---------------------------------------------------------------------------
proof fn lemma_dec_nat_props(n: int)
    requires
        n >= 0,
    ensures
        dec_nat(n).len() >= 1,
        forall|i: int| 0 <= i < dec_nat(n).len() ==> is_digit(#[trigger] dec_nat(n)[i]),
        digits_val(dec_nat(n)) == n,
    decreases n,
{
    if n < 10 {
        let d = (DIGIT0 + n) as u8;
        assert(d == DIGIT0 + n);
        assert(dec_nat(n) == seq![d]);
        assert(dec_nat(n).drop_last() =~= Seq::<u8>::empty());
        assert(dec_nat(n).last() == d);
        assert(digits_val(Seq::<u8>::empty()) == 0);
        assert(digits_val(dec_nat(n)) == 0 * 10 + (d - DIGIT0));
    } else {
        lemma_dec_nat_props(n / 10);
        let d = (DIGIT0 + n % 10) as u8;
        assert(dec_nat(n) == dec_nat(n / 10).push(d));
        assert(dec_nat(n).drop_last() =~= dec_nat(n / 10));
        assert(dec_nat(n).last() == d);
        assert(digits_val(dec_nat(n)) == digits_val(dec_nat(n / 10)) * 10 + (d - DIGIT0));
        assert(n / 10 * 10 + n % 10 == n);
        assert(forall|i: int|
            0 <= i < dec_nat(n).len() - 1 ==> dec_nat(n)[i] == dec_nat(n / 10)[i]);
    }
}

/// A run of digits followed by a non-digit (or the end) is scanned exactly.
proof fn lemma_digit_run_concat(d: Seq<u8>, rest: Seq<u8>)
    requires
        forall|i: int| 0 <= i < d.len() ==> is_digit(#[trigger] d[i]),
        rest.len() == 0 || !is_digit(rest[0]),
    ensures
        digit_run(d + rest) == d.len(),
    decreases d.len(),
{
    if d.len() == 0 {
        assert(d + rest =~= rest);
    } else {
        assert((d + rest)[0] == d[0]);
        assert((d + rest).skip(1) =~= d.skip(1) + rest);
        lemma_digit_run_concat(d.skip(1), rest);
    }
}

proof fn lemma_sp_u128_rt(n: u128, rest: Seq<u8>)
    requires
        rest.len() == 0 || !is_digit(rest[0]),
    ensures
        sp_u128(dec_nat(n as int) + rest) == Option::Some((n, rest)),
{
    let d = dec_nat(n as int);
    let s = d + rest;
    lemma_dec_nat_props(n as int);
    lemma_digit_run_concat(d, rest);
    assert(digit_run(s) == d.len());
    assert(s.take(d.len() as int) =~= d);
    assert(s.skip(d.len() as int) =~= rest);
}

proof fn lemma_sp_i128_rt(v: i128, rest: Seq<u8>)
    requires
        rest.len() == 0 || !is_digit(rest[0]),
    ensures
        sp_i128(ser_i128(v) + rest) == Option::Some((v, rest)),
{
    if v < 0 {
        let mag = -(v as int);
        let s = ser_i128(v) + rest;
        assert(ser_i128(v) == seq![MINUS] + dec_nat(mag));
        assert(s[0] == MINUS);
        assert(s.skip(1) =~= dec_nat(mag) + rest);
        lemma_sp_u128_rt(mag as u128, rest);
        assert(mag <= 0x8000_0000_0000_0000_0000_0000_0000_0000);
        assert((-(mag as u128 as int)) as i128 == v);
    } else {
        let s = ser_i128(v) + rest;
        lemma_dec_nat_props(v as int);
        assert(s[0] == dec_nat(v as int)[0]);
        assert(is_digit(s[0]));
        assert(!(s[0] == MINUS));
        lemma_sp_u128_rt(v as u128, rest);
        assert(dec_nat(v as u128 as int) + rest =~= s);
    }
}

proof fn lemma_sp_lit_rt(p: Seq<u8>, rest: Seq<u8>)
    ensures
        sp_lit(p + rest, p) == Option::Some(rest),
{
    let s = p + rest;
    assert(s.take(p.len() as int) =~= p);
    assert(s.skip(p.len() as int) =~= rest);
}

proof fn lemma_sp_name_rt(nm: Seq<u8>, rest: Seq<u8>)
    requires
        name_wf(nm),
    ensures
        sp_name(nm + seq![QUOTE] + rest) == Option::Some((nm, rest)),
    decreases nm.len(),
{
    let s = nm + seq![QUOTE] + rest;
    if nm.len() == 0 {
        assert(s[0] == QUOTE);
        assert(s.skip(1) =~= rest);
        assert(nm =~= Seq::<u8>::empty());
    } else {
        assert(s[0] == nm[0]);
        assert(crate::song::name_byte_ok(nm[0]));
        assert(nm[0] != QUOTE);
        assert(s.skip(1) =~= nm.skip(1) + seq![QUOTE] + rest);
        assert(name_wf(nm.skip(1)));
        lemma_sp_name_rt(nm.skip(1), rest);
        assert(seq![s[0]] + nm.skip(1) =~= nm);
    }
}

proof fn lemma_sp_note_rt(nt: Note, rest: Seq<u8>)
    ensures
        sp_note(ser_note(nt) + rest) == Option::Some((nt, rest)),
{
    let s = ser_note(nt) + rest;
    let dt = dec_nat(nt.time as int);
    let dh = dec_nat(nt.holding as int);
    let s1 = dt + (lit_holding() + (dh + (seq![RBRACE] + rest)));
    assert(s =~= lit_time() + s1);
    lemma_sp_lit_rt(lit_time(), s1);
    let s2 = lit_holding() + (dh + (seq![RBRACE] + rest));
    lemma_sp_u128_rt(nt.time, s2);
    assert(dec_nat(nt.time as int) + s2 =~= s1);
    assert(s2[0] == COMMA && !is_digit(COMMA));
    let s3 = dh + (seq![RBRACE] + rest);
    lemma_sp_lit_rt(lit_holding(), s3);
    let s4 = seq![RBRACE] + rest;
    lemma_sp_u128_rt(nt.holding, s4);
    assert(s4[0] == RBRACE && !is_digit(RBRACE));
    lemma_sp_lit_rt(seq![RBRACE], rest);
}

proof fn lemma_sp_lane_rest_rt(l: Seq<Note>, rest: Seq<u8>)
    ensures
        sp_lane_rest(ser_lane_rest(l) + rest) == Option::Some((l, rest)),
    decreases l.len(),
{
    let s = ser_lane_rest(l) + rest;
    if l.len() == 0 {
        assert(s =~= seq![RBRACK] + rest);
        assert(s[0] == RBRACK);
        assert(s.take(1) =~= seq![RBRACK]);
        assert(is_prefix(seq![RBRACK], s));
        assert(s.skip(1) =~= rest);
        assert(l =~= Seq::<Note>::empty());
    } else {
        assert(s =~= seq![COMMA] + (ser_note(l[0]) + (ser_lane_rest(l.skip(1)) + rest)));
        assert(s[0] == COMMA);
        assert(s.take(1) =~= seq![COMMA]);
        assert(!is_prefix(seq![RBRACK], s)) by {
            if is_prefix(seq![RBRACK], s) {
                assert(s.take(1)[0] == RBRACK);
            }
        }
        assert(is_prefix(seq![COMMA], s));
        assert(s.skip(1) =~= ser_note(l[0]) + (ser_lane_rest(l.skip(1)) + rest));
        lemma_sp_note_rt(l[0], ser_lane_rest(l.skip(1)) + rest);
        lemma_sp_lane_rest_rt(l.skip(1), rest);
        assert(seq![l[0]] + l.skip(1) =~= l);
    }
}

proof fn lemma_sp_lane_rt(l: Seq<Note>, rest: Seq<u8>)
    ensures
        sp_lane(ser_lane(l) + rest) == Option::Some((l, rest)),
{
    let s = ser_lane(l) + rest;
    if l.len() == 0 {
        assert(s =~= seq![LBRACK] + (seq![RBRACK] + rest));
        lemma_sp_lit_rt(seq![LBRACK], seq![RBRACK] + rest);
        let r1 = seq![RBRACK] + rest;
        assert(r1[0] == RBRACK);
        assert(r1.take(1) =~= seq![RBRACK]);
        assert(is_prefix(seq![RBRACK], r1));
        assert(r1.skip(1) =~= rest);
        assert(l =~= Seq::<Note>::empty());
    } else {
        assert(s =~= seq![LBRACK] + (ser_note(l[0]) + (ser_lane_rest(l.skip(1)) + rest)));
        lemma_sp_lit_rt(seq![LBRACK], ser_note(l[0]) + (ser_lane_rest(l.skip(1)) + rest));
        let r1 = ser_note(l[0]) + (ser_lane_rest(l.skip(1)) + rest);
        assert(r1[0] == LBRACE);
        assert(!is_prefix(seq![RBRACK], r1)) by {
            if is_prefix(seq![RBRACK], r1) {
                assert(r1.take(1)[0] == RBRACK);
            }
        }
        lemma_sp_note_rt(l[0], ser_lane_rest(l.skip(1)) + rest);
        lemma_sp_lane_rest_rt(l.skip(1), rest);
        assert(seq![l[0]] + l.skip(1) =~= l);
    }
}

proof fn lemma_sp_opt_i128_rt(o: Option<i128>, rest: Seq<u8>)
    requires
        rest.len() == 0 || !is_digit(rest[0]),
    ensures
        sp_opt_i128(ser_opt_i128(o) + rest) == Option::Some((o, rest)),
{
    let s = ser_opt_i128(o) + rest;
    match o {
        Option::None => {
            assert(s =~= lit_null() + rest);
            assert(s.take(4) =~= lit_null());
            assert(is_prefix(lit_null(), s));
            assert(s.skip(4) =~= rest);
        },
        Option::Some(v) => {
            if v < 0 {
                assert(s[0] == MINUS);
            } else {
                lemma_dec_nat_props(v as int);
                assert(s[0] == dec_nat(v as int)[0]);
                assert(is_digit(s[0]));
            }
            assert(!is_prefix(lit_null(), s)) by {
                if is_prefix(lit_null(), s) {
                    assert(s.take(4)[0] == 0x6e);
                }
            }
            lemma_sp_i128_rt(v, rest);
        },
    }
}

proof fn lemma_sp_opt_u128_rt(o: Option<u128>, rest: Seq<u8>)
    requires
        rest.len() == 0 || !is_digit(rest[0]),
    ensures
        sp_opt_u128(ser_opt_u128(o) + rest) == Option::Some((o, rest)),
{
    let s = ser_opt_u128(o) + rest;
    match o {
        Option::None => {
            assert(s =~= lit_null() + rest);
            assert(s.take(4) =~= lit_null());
            assert(is_prefix(lit_null(), s));
            assert(s.skip(4) =~= rest);
        },
        Option::Some(v) => {
            lemma_dec_nat_props(v as int);
            assert(s[0] == dec_nat(v as int)[0]);
            assert(is_digit(s[0]));
            assert(!is_prefix(lit_null(), s)) by {
                if is_prefix(lit_null(), s) {
                    assert(s.take(4)[0] == 0x6e);
                }
            }
            lemma_sp_u128_rt(v, rest);
            assert(dec_nat(v as int) + rest =~= s);
        },
    }
}

proof fn lemma_song_tail_rt(m: SongModel, r: Seq<u8>)
    requires
        r == lit_sync() + (ser_opt_i128(m.sync) + (lit_bpm() + (ser_opt_u128(m.bpm)
            + seq![RBRACE]))),
    ensures
        sp_song_tail(m.name, m.id, m.left, m.up, m.bottom, m.right, m.end, r) == Option::Some(m),
{
    let t_close = seq![RBRACE];
    let t_bpmv = ser_opt_u128(m.bpm) + t_close;
    let t_bpm = lit_bpm() + t_bpmv;
    let t_syncv = ser_opt_i128(m.sync) + t_bpm;
    assert(r =~= lit_sync() + t_syncv);
    assert(is_prefix(lit_sync(), r)) by {
        assert(r.take(lit_sync().len() as int) =~= lit_sync());
    }
    assert(r.skip(lit_sync().len() as int) =~= t_syncv);
    assert(sp_opt_i128(t_syncv) == Option::Some((m.sync, t_bpm))) by {
        assert(t_bpm[0] == COMMA && !is_digit(COMMA));
        lemma_sp_opt_i128_rt(m.sync, t_bpm);
    }
    assert(is_prefix(lit_bpm(), t_bpm)) by {
        assert(t_bpm.take(lit_bpm().len() as int) =~= lit_bpm());
    }
    assert(t_bpm.skip(lit_bpm().len() as int) =~= t_bpmv);
    assert(sp_opt_u128(t_bpmv) == Option::Some((m.bpm, t_close))) by {
        assert(t_close[0] == RBRACE && !is_digit(RBRACE));
        lemma_sp_opt_u128_rt(m.bpm, t_close);
    }
    assert(t_close.len() == 1 && t_close[0] == RBRACE);
}

#[verifier::rlimit(100)]
proof fn lemma_song_lanes_rt(m: SongModel, s: Seq<u8>, t_sync: Seq<u8>)
    requires
        t_sync == lit_sync() + (ser_opt_i128(m.sync) + (lit_bpm() + (ser_opt_u128(m.bpm)
            + seq![RBRACE]))),
        s == lit_left() + (ser_lane(m.left) + (lit_up() + (ser_lane(m.up) + (lit_bottom()
            + (ser_lane(m.bottom) + (lit_right() + (ser_lane(m.right) + (lit_end() + (dec_nat(
            m.end as int,
        ) + t_sync))))))))),
    ensures
        sp_song_lanes(m.name, m.id, s) == Option::Some(m),
{
    let t_endv = dec_nat(m.end as int) + t_sync;
    let t_end = lit_end() + t_endv;
    let t_rl = ser_lane(m.right) + t_end;
    let t_right = lit_right() + t_rl;
    let t_bl = ser_lane(m.bottom) + t_right;
    let t_bottom = lit_bottom() + t_bl;
    let t_ul = ser_lane(m.up) + t_bottom;
    let t_up = lit_up() + t_ul;
    let t_ll = ser_lane(m.left) + t_up;
    assert(sp_lit(s, lit_left()) == Option::Some(t_ll)) by {
        lemma_sp_lit_rt(lit_left(), t_ll);
    }
    assert(sp_lane(t_ll) == Option::Some((m.left, t_up))) by {
        lemma_sp_lane_rt(m.left, t_up);
    }
    assert(sp_lit(t_up, lit_up()) == Option::Some(t_ul)) by {
        lemma_sp_lit_rt(lit_up(), t_ul);
    }
    assert(sp_lane(t_ul) == Option::Some((m.up, t_bottom))) by {
        lemma_sp_lane_rt(m.up, t_bottom);
    }
    assert(sp_lit(t_bottom, lit_bottom()) == Option::Some(t_bl)) by {
        lemma_sp_lit_rt(lit_bottom(), t_bl);
    }
    assert(sp_lane(t_bl) == Option::Some((m.bottom, t_right))) by {
        lemma_sp_lane_rt(m.bottom, t_right);
    }
    assert(sp_lit(t_right, lit_right()) == Option::Some(t_rl)) by {
        lemma_sp_lit_rt(lit_right(), t_rl);
    }
    assert(sp_lane(t_rl) == Option::Some((m.right, t_end))) by {
        lemma_sp_lane_rt(m.right, t_end);
    }
    assert(sp_lit(t_end, lit_end()) == Option::Some(t_endv)) by {
        lemma_sp_lit_rt(lit_end(), t_endv);
    }
    assert(sp_u128(t_endv) == Option::Some((m.end, t_sync))) by {
        assert(t_sync[0] == COMMA && !is_digit(COMMA));
        lemma_sp_u128_rt(m.end, t_sync);
    }
    lemma_song_tail_rt(m, t_sync);
}

/// Round trip: parsing what the serializer wrote yields the song back, for
/// every song whose name is storable.  Tap-only and hold-containing lanes,
/// and `None` forms of `id`, `sync` and `bpm`, are all covered: the statement
/// quantifies over every model.
pub proof fn lemma_song_round_trip(m: SongModel)
    requires
        name_wf(m.name),
    ensures
        sp_song(ser_song(m)) == Option::Some(m),
{
    let t_sync = lit_sync() + (ser_opt_i128(m.sync) + (lit_bpm() + (ser_opt_u128(m.bpm)
        + seq![RBRACE])));
    let t_lanes = lit_left() + (ser_lane(m.left) + (lit_up() + (ser_lane(m.up) + (lit_bottom()
        + (ser_lane(m.bottom) + (lit_right() + (ser_lane(m.right) + (lit_end() + (dec_nat(
        m.end as int,
    ) + t_sync)))))))));
    let t_idv = ser_opt_i128(m.id) + t_lanes;
    let t_id = lit_id() + t_idv;
    let t_name = m.name + (seq![QUOTE] + t_id);
    let s = lit_head() + t_name;
    assert(ser_song(m) == s);
    assert(sp_lit(s, lit_head()) == Option::Some(t_name)) by {
        lemma_sp_lit_rt(lit_head(), t_name);
    }
    assert(sp_name(t_name) == Option::Some((m.name, t_id))) by {
        lemma_sp_name_rt(m.name, t_id);
        assert(t_name =~= m.name + seq![QUOTE] + t_id);
    }
    assert(sp_lit(t_id, lit_id()) == Option::Some(t_idv)) by {
        lemma_sp_lit_rt(lit_id(), t_idv);
    }
    assert(sp_opt_i128(t_idv) == Option::Some((m.id, t_lanes))) by {
        assert(t_lanes[0] == COMMA && !is_digit(COMMA));
        lemma_sp_opt_i128_rt(m.id, t_lanes);
    }
    lemma_song_lanes_rt(m, t_lanes, t_sync);
}

// ---------------------------------------------------------------------------
// The parser.
//
// Every helper is exact against its spec counterpart: it returns `Some`
// exactly when the spec parser does, with the same value and the same
// position.
// ---------------------------------------------------------------------------
fn expect_pat(buf: &Vec<u8>, i: usize, pat: &Vec<u8>) -> (r: Option<usize>)
    requires
        i <= buf@.len(),
    ensures
        match r {
            Option::Some(j) => i + pat@.len() == j && j <= buf@.len() && sp_lit(
                buf@.skip(i as int),
                pat@,
            ) == Option::Some(buf@.skip(j as int)),
            Option::None => sp_lit(buf@.skip(i as int), pat@) is None,
        },
{
    let n = buf.len();
    let m = pat.len();
    if n - i < m {
        proof {
            assert(buf@.skip(i as int).len() < pat@.len());
        }
        return None;
    }
    let mut k: usize = 0;
    while k < m
        invariant
            k <= m,
            i + m <= n,
            n == buf@.len(),
            m == pat@.len(),
            forall|j: int| 0 <= j < k ==> buf@[i + j] == pat@[j],
        decreases m - k,
    {
        if buf[i + k] != pat[k] {
            proof {
                let t = buf@.skip(i as int);
                assert(t[k as int] == buf@[i + k]);
                assert(!is_prefix(pat@, t)) by {
                    if is_prefix(pat@, t) {
                        assert(t.take(m as int)[k as int] == t[k as int]);
                    }
                }
            }
            return None;
        }
        k = k + 1;
    }
    proof {
        let t = buf@.skip(i as int);
        assert(t.take(m as int) =~= pat@);
        assert(t.skip(m as int) =~= buf@.skip(i + m));
    }
    Some(i + m)
}

proof fn lemma_digits_val_nonneg(s: Seq<u8>)
    requires
        forall|i: int| 0 <= i < s.len() ==> is_digit(#[trigger] s[i]),
    ensures
        digits_val(s) >= 0,
    decreases s.len(),
{
    if s.len() > 0 {
        lemma_digits_val_nonneg(s.drop_last());
    }
}

fn parse_u128(buf: &Vec<u8>, i: usize) -> (r: Option<(u128, usize)>)
    requires
        i <= buf@.len(),
    ensures
        match r {
            Option::Some(v) => i <= v.1 <= buf@.len() && sp_u128(buf@.skip(i as int))
                == Option::Some((v.0, buf@.skip(v.1 as int))),
            Option::None => sp_u128(buf@.skip(i as int)) is None,
        },
{
    let n = buf.len();
    let mut k: usize = i;
    let mut acc: u128 = 0;
    let mut over: bool = false;
    while k < n && DIGIT0 <= buf[k] && buf[k] <= 0x39
        invariant
            i <= k <= n,
            n == buf@.len(),
            forall|j: int| i <= j < k ==> is_digit(#[trigger] buf@[j]),
            !over ==> acc == digits_val(buf@.subrange(i as int, k as int)),
            over ==> digits_val(buf@.subrange(i as int, k as int)) > u128::MAX as int,
        decreases n - k,
    {
        let d: u8 = buf[k] - DIGIT0;
        proof {
            let pre = buf@.subrange(i as int, k as int);
            let cur = buf@.subrange(i as int, k as int + 1);
            assert(cur.drop_last() =~= pre);
            assert(cur.last() == buf@[k as int]);
            assert(digits_val(cur) == digits_val(pre) * 10 + d);
            lemma_digits_val_nonneg(pre);
        }
        if !over {
            if acc <= (u128::MAX - d as u128) / 10 {
                proof {
                    assert(acc * 10 + d <= u128::MAX) by (nonlinear_arith)
                        requires
                            acc <= (u128::MAX - d as u128) / 10,
                            0 <= d < 10,
                    ;
                }
                acc = acc * 10 + d as u128;
            } else {
                proof {
                    assert(acc * 10 + d > u128::MAX) by (nonlinear_arith)
                        requires
                            acc > (u128::MAX - d as u128) / 10,
                            0 <= d < 10,
                    ;
                }
                over = true;
            }
        } else {
            proof {
                let pre = buf@.subrange(i as int, k as int);
                assert(digits_val(pre) * 10 + d > u128::MAX as int) by (nonlinear_arith)
                    requires
                        digits_val(pre) > u128::MAX as int,
                        d >= 0,
                ;
            }
        }
        k = k + 1;
    }
    proof {
        let t = buf@.skip(i as int);
        let d = buf@.subrange(i as int, k as int);
        assert(t =~= d + buf@.skip(k as int));
        lemma_digit_run_concat(d, buf@.skip(k as int));
        assert(digit_run(t) == k - i);
        assert(t.take((k - i) as int) =~= d);
        assert(t.skip((k - i) as int) =~= buf@.skip(k as int));
    }
    if k == i {
        return None;
    }
    if over {
        return None;
    }
    Some((acc, k))
}

fn parse_i128(buf: &Vec<u8>, i: usize) -> (r: Option<(i128, usize)>)
    requires
        i <= buf@.len(),
    ensures
        match r {
            Option::Some(v) => i <= v.1 <= buf@.len() && sp_i128(buf@.skip(i as int))
                == Option::Some((v.0, buf@.skip(v.1 as int))),
            Option::None => sp_i128(buf@.skip(i as int)) is None,
        },
{
    let n = buf.len();
    if i < n && buf[i] == MINUS {
        proof {
            let t = buf@.skip(i as int);
            assert(t[0] == buf@[i as int]);
            assert(t.skip(1) =~= buf@.skip(i as int + 1));
        }
        match parse_u128(buf, i + 1) {
            Option::Some((mag, j)) => {
                if mag <= 0x8000_0000_0000_0000_0000_0000_0000_0000u128 {
                    let v: i128 = if mag == 0x8000_0000_0000_0000_0000_0000_0000_0000u128 {
                        i128::MIN
                    } else {
                        -(mag as i128)
                    };
                    proof {
                        assert(v as int == -(mag as int));
                    }
                    Some((v, j))
                } else {
                    None
                }
            },
            Option::None => None,
        }
    } else {
        proof {
            let t = buf@.skip(i as int);
            if t.len() > 0 {
                assert(t[0] == buf@[i as int]);
            }
        }
        match parse_u128(buf, i) {
            Option::Some((v, j)) => {
                if v <= i128::MAX as u128 {
                    Some((v as i128, j))
                } else {
                    None
                }
            },
            Option::None => None,
        }
    }
}

fn parse_opt_i128(buf: &Vec<u8>, i: usize) -> (r: Option<(Option<i128>, usize)>)
    requires
        i <= buf@.len(),
    ensures
        match r {
            Option::Some(v) => i <= v.1 <= buf@.len() && sp_opt_i128(buf@.skip(i as int))
                == Option::Some((v.0, buf@.skip(v.1 as int))),
            Option::None => sp_opt_i128(buf@.skip(i as int)) is None,
        },
{
    let pat = lit_null_vec();
    match expect_pat(buf, i, &pat) {
        Option::Some(j) => {
            proof {
                assert(buf@.skip(i as int).skip(4) =~= buf@.skip(j as int));
            }
            Some((None, j))
        },
        Option::None => {
            match parse_i128(buf, i) {
                Option::Some((v, j)) => Some((Some(v), j)),
                Option::None => None,
            }
        },
    }
}

fn parse_opt_u128(buf: &Vec<u8>, i: usize) -> (r: Option<(Option<u128>, usize)>)
    requires
        i <= buf@.len(),
    ensures
        match r {
            Option::Some(v) => i <= v.1 <= buf@.len() && sp_opt_u128(buf@.skip(i as int))
                == Option::Some((v.0, buf@.skip(v.1 as int))),
            Option::None => sp_opt_u128(buf@.skip(i as int)) is None,
        },
{
    let pat = lit_null_vec();
    match expect_pat(buf, i, &pat) {
        Option::Some(j) => {
            proof {
                assert(buf@.skip(i as int).skip(4) =~= buf@.skip(j as int));
            }
            Some((None, j))
        },
        Option::None => {
            match parse_u128(buf, i) {
                Option::Some((v, j)) => Some((Some(v), j)),
                Option::None => None,
            }
        },
    }
}

fn parse_name(buf: &Vec<u8>, i: usize) -> (r: Option<(Vec<u8>, usize)>)
    requires
        i <= buf@.len(),
    ensures
        match r {
            Option::Some((nm, j)) => i <= j <= buf@.len() && sp_name(buf@.skip(i as int))
                == Option::Some((nm@, buf@.skip(j as int))),
            Option::None => sp_name(buf@.skip(i as int)) is None,
        },
{
    let n = buf.len();
    let mut k: usize = i;
    let mut nm: Vec<u8> = Vec::new();
    while k < n
        invariant
            i <= k <= n,
            n == buf@.len(),
            sp_name(buf@.skip(i as int)) == (match sp_name(buf@.skip(k as int)) {
                Option::Some((t, r)) => Option::Some((nm@ + t, r)),
                Option::None => Option::<(Seq<u8>, Seq<u8>)>::None,
            }),
        decreases n - k,
    {
        let b = buf[k];
        proof {
            let t = buf@.skip(k as int);
            assert(t[0] == buf@[k as int]);
            assert(t.skip(1) =~= buf@.skip(k as int + 1));
        }
        if b == QUOTE {
            proof {
                assert(nm@ + Seq::<u8>::empty() =~= nm@);
            }
            return Some((nm, k + 1));
        }
        if 0x20 <= b && b <= 0x7e && b != 0x5c {
            let ghost old_nm = nm@;
            nm.push(b);
            proof {
                let t = buf@.skip(k as int);
                if let Option::Some((t2, r2)) = sp_name(buf@.skip(k as int + 1)) {
                    assert(old_nm + (seq![b] + t2) =~= nm@ + t2);
                }
            }
        } else {
            return None;
        }
        k = k + 1;
    }
    proof {
        assert(buf@.skip(k as int).len() == 0);
    }
    None
}

fn parse_note(buf: &Vec<u8>, i: usize) -> (r: Option<(Note, usize)>)
    requires
        i <= buf@.len(),
    ensures
        match r {
            Option::Some((nt, j)) => i <= j <= buf@.len() && sp_note(buf@.skip(i as int))
                == Option::Some((nt, buf@.skip(j as int))),
            Option::None => sp_note(buf@.skip(i as int)) is None,
        },
{
    let pat = lit_time_vec();
    let j1 = match expect_pat(buf, i, &pat) {
        Option::Some(j) => j,
        Option::None => {
            return None;
        },
    };
    let (t, j2) = match parse_u128(buf, j1) {
        Option::Some(v) => v,
        Option::None => {
            return None;
        },
    };
    let pat2 = lit_holding_vec();
    let j3 = match expect_pat(buf, j2, &pat2) {
        Option::Some(j) => j,
        Option::None => {
            return None;
        },
    };
    let (h, j4) = match parse_u128(buf, j3) {
        Option::Some(v) => v,
        Option::None => {
            return None;
        },
    };
    let mut pat3: Vec<u8> = Vec::new();
    pat3.push(RBRACE);
    proof {
        assert(pat3@ =~= seq![RBRACE]);
    }
    let j5 = match expect_pat(buf, j4, &pat3) {
        Option::Some(j) => j,
        Option::None => {
            return None;
        },
    };
    Some((Note { time: t, holding: h }, j5))
}

fn parse_lane(buf: &Vec<u8>, i: usize) -> (r: Option<(Vec<Note>, usize)>)
    requires
        i <= buf@.len(),
    ensures
        match r {
            Option::Some((l, j)) => i <= j <= buf@.len() && sp_lane(buf@.skip(i as int))
                == Option::Some((l@, buf@.skip(j as int))),
            Option::None => sp_lane(buf@.skip(i as int)) is None,
        },
{
    let n = buf.len();
    if !(i < n && buf[i] == LBRACK) {
        proof {
            let t = buf@.skip(i as int);
            assert(!is_prefix(seq![LBRACK], t)) by {
                if is_prefix(seq![LBRACK], t) {
                    assert(t.take(1)[0] == t[0]);
                    assert(t[0] == buf@[i as int]);
                }
            }
        }
        return None;
    }
    proof {
        let t = buf@.skip(i as int);
        assert(t[0] == buf@[i as int]);
        assert(t.take(1) =~= seq![LBRACK]);
        assert(is_prefix(seq![LBRACK], t));
        assert(t.skip(1) =~= buf@.skip(i as int + 1));
    }
    let mut k: usize = i + 1;
    let mut notes: Vec<Note> = Vec::new();
    // An empty lane closes at once.
    if k < n && buf[k] == RBRACK {
        proof {
            let t = buf@.skip(k as int);
            assert(t[0] == buf@[k as int]);
            assert(t.take(1) =~= seq![RBRACK]);
            assert(is_prefix(seq![RBRACK], t));
            assert(t.skip(1) =~= buf@.skip(k as int + 1));
            assert(notes@ =~= Seq::<Note>::empty());
        }
        return Some((notes, k + 1));
    }
    proof {
        let t = buf@.skip(k as int);
        assert(!is_prefix(seq![RBRACK], t)) by {
            if is_prefix(seq![RBRACK], t) {
                assert(t.take(1)[0] == t[0]);
                if t.len() > 0 {
                    assert(t[0] == buf@[k as int]);
                }
            }
        }
    }
    let (nt, k2) = match parse_note(buf, k) {
        Option::Some(v) => v,
        Option::None => {
            return None;
        },
    };
    notes.push(nt);
    let mut k: usize = k2;
    proof {
        assert(notes@ =~= seq![nt] + Seq::<Note>::empty().skip(0));
    }
    loop
        invariant
            i <= k <= n,
            n == buf@.len(),
            sp_lane(buf@.skip(i as int)) == (match sp_lane_rest(buf@.skip(k as int)) {
                Option::Some((l2, r)) => Option::Some((notes@ + l2, r)),
                Option::None => Option::<(Seq<Note>, Seq<u8>)>::None,
            }),
        decreases n - k,
    {
        if k < n && buf[k] == RBRACK {
            proof {
                let t = buf@.skip(k as int);
                assert(t[0] == buf@[k as int]);
                assert(t.take(1) =~= seq![RBRACK]);
                assert(is_prefix(seq![RBRACK], t));
                assert(t.skip(1) =~= buf@.skip(k as int + 1));
                assert(notes@ + Seq::<Note>::empty() =~= notes@);
            }
            return Some((notes, k + 1));
        }
        if !(k < n && buf[k] == COMMA) {
            proof {
                let t = buf@.skip(k as int);
                assert(!is_prefix(seq![RBRACK], t) && !is_prefix(seq![COMMA], t)) by {
                    if t.len() > 0 {
                        assert(t[0] == buf@[k as int]);
                    }
                    if is_prefix(seq![RBRACK], t) {
                        assert(t.take(1)[0] == t[0]);
                    }
                    if is_prefix(seq![COMMA], t) {
                        assert(t.take(1)[0] == t[0]);
                    }
                }
            }
            return None;
        }
        proof {
            let t = buf@.skip(k as int);
            assert(t[0] == buf@[k as int]);
            assert(!is_prefix(seq![RBRACK], t)) by {
                if is_prefix(seq![RBRACK], t) {
                    assert(t.take(1)[0] == t[0]);
                }
            }
            assert(t.take(1) =~= seq![COMMA]);
            assert(is_prefix(seq![COMMA], t));
            assert(t.skip(1) =~= buf@.skip(k as int + 1));
        }
        let (nt2, k3) = match parse_note(buf, k + 1) {
            Option::Some(v) => v,
            Option::None => {
                return None;
            },
        };
        let ghost old_notes = notes@;
        notes.push(nt2);
        proof {
            if let Option::Some((l3, r3)) = sp_lane_rest(buf@.skip(k3 as int)) {
                assert(old_notes + (seq![nt2] + l3) =~= notes@ + l3);
            }
            assert(k3 > k) by {
                lemma_sp_note_shrinks(buf@.skip(k as int + 1));
            }
        }
        k = k3;
    }
}

/// Parses a persisted song file.  Returns the song exactly when the input is
/// a well-formed song object, and `None` on any malformed input.
pub fn parse_song(buf: &Vec<u8>) -> (r: Option<Song>)
    ensures
        match r {
            Option::Some(song) => sp_song(buf@) == Option::Some(song@),
            Option::None => sp_song(buf@) is None,
        },
{
    proof {
        assert(buf@.skip(0) =~= buf@);
    }
    let n = buf.len();
    let pat = lit_head_vec();
    let j0 = match expect_pat(buf, 0, &pat) {
        Option::Some(j) => j,
        Option::None => {
            return None;
        },
    };
    let (name, j1) = match parse_name(buf, j0) {
        Option::Some(v) => v,
        Option::None => {
            return None;
        },
    };
    let pat = lit_id_vec();
    let j2 = match expect_pat(buf, j1, &pat) {
        Option::Some(j) => j,
        Option::None => {
            return None;
        },
    };
    let (id, j3) = match parse_opt_i128(buf, j2) {
        Option::Some(v) => v,
        Option::None => {
            return None;
        },
    };
    let pat = lit_left_vec();
    let j4 = match expect_pat(buf, j3, &pat) {
        Option::Some(j) => j,
        Option::None => {
            return None;
        },
    };
    let (left_keys, j5) = match parse_lane(buf, j4) {
        Option::Some(v) => v,
        Option::None => {
            return None;
        },
    };
    let pat = lit_up_vec();
    let j6 = match expect_pat(buf, j5, &pat) {
        Option::Some(j) => j,
        Option::None => {
            return None;
        },
    };
    let (up_keys, j7) = match parse_lane(buf, j6) {
        Option::Some(v) => v,
        Option::None => {
            return None;
        },
    };
    let pat = lit_bottom_vec();
    let j8 = match expect_pat(buf, j7, &pat) {
        Option::Some(j) => j,
        Option::None => {
            return None;
        },
    };
    let (bottom_keys, j9) = match parse_lane(buf, j8) {
        Option::Some(v) => v,
        Option::None => {
            return None;
        },
    };
    let pat = lit_right_vec();
    let j10 = match expect_pat(buf, j9, &pat) {
        Option::Some(j) => j,
        Option::None => {
            return None;
        },
    };
    let (right_keys, j11) = match parse_lane(buf, j10) {
        Option::Some(v) => v,
        Option::None => {
            return None;
        },
    };
    let pat = lit_end_vec();
    let j12 = match expect_pat(buf, j11, &pat) {
        Option::Some(j) => j,
        Option::None => {
            return None;
        },
    };
    let (end, j13) = match parse_u128(buf, j12) {
        Option::Some(v) => v,
        Option::None => {
            return None;
        },
    };
    // Optional `sync`, kept as `None` when the field is absent.
    let pat = lit_sync_vec();
    let (sync, j14) = match expect_pat(buf, j13, &pat) {
        Option::Some(j) => {
            proof {
                assert(buf@.skip(j13 as int).skip(lit_sync().len() as int) =~= buf@.skip(
                    j as int,
                ));
            }
            match parse_opt_i128(buf, j) {
                Option::Some(v) => v,
                Option::None => {
                    return None;
                },
            }
        },
        Option::None => (None, j13),
    };
    // Optional `bpm`, kept as `None` when the field is absent.
    let pat = lit_bpm_vec();
    let (bpm, j15) = match expect_pat(buf, j14, &pat) {
        Option::Some(j) => {
            proof {
                assert(buf@.skip(j14 as int).skip(lit_bpm().len() as int) =~= buf@.skip(
                    j as int,
                ));
            }
            match parse_opt_u128(buf, j) {
                Option::Some(v) => v,
                Option::None => {
                    return None;
                },
            }
        },
        Option::None => (None, j14),
    };
    if !(j15 < n && buf[j15] == RBRACE && j15 + 1 == n) {
        proof {
            let rb = buf@.skip(j15 as int);
            assert(!(rb.len() == 1 && rb[0] == RBRACE)) by {
                if rb.len() == 1 {
                    assert(rb[0] == buf@[j15 as int]);
                }
            }
        }
        return None;
    }
    let song = Song { name, id, left_keys, up_keys, bottom_keys, right_keys, end, sync, bpm };
    proof {
        let rb = buf@.skip(j15 as int);
        assert(rb.len() == 1 && rb[0] == RBRACE);
        assert(sp_song(buf@) == Option::Some(song@));
    }
    Some(song)
}

/// Loads a song from the raw bytes of its persisted file.  A missing or
/// corrupt file (or one that breaks the song invariant) falls back to the
/// empty song and raises the error flag, as the session expects: the caller
/// surfaces an alert and pauses rather than failing hard.
pub fn load_song(buf: &Vec<u8>) -> (r: (Song, bool))
    ensures
        match sp_song(buf@) {
            Option::Some(m) => if crate::song::song_wf(m) {
                r.0@ == m && r.1 == false
            } else {
                r.0@ == crate::song::empty_model() && r.1 == true
            },
            Option::None => r.0@ == crate::song::empty_model() && r.1 == true,
        },
        crate::song::song_wf(r.0@),
        r.1 == false ==> sp_song(buf@) == Option::Some(r.0@),
{
    match parse_song(buf) {
        Option::Some(song) => {
            if crate::song::check_song(&song) {
                (song, false)
            } else {
                (crate::song::empty_song(), true)
            }
        },
        Option::None => (crate::song::empty_song(), true),
    }
}

} // verus!
