//! Human-readable text: decimal numbers, upper-case hexadecimal 256-bit
//! values, and the description of a pull request.

use vstd::prelude::*;
use vstd::string::StrSliceExecFns;
use crate::asc_pull_ack::{AccountInfoAckPayload, AscPullAck, AscPullAckType, AscPullAckTypeView};
use crate::asc_pull_req::{AscPullReq, AscPullReqType};
use crate::primitives::{bytes32_value, Bytes32};

verus! {

/// Calls `String::push`, which appends the character.
#[verifier::external_body]
fn push_char(s: &mut String, c: char)
    ensures
        final(s)@ == old(s)@.push(c),
{
    s.push(c);
}

pub open spec fn digit_char(d: nat) -> char {
    if d == 0 {
        '0'
    } else if d == 1 {
        '1'
    } else if d == 2 {
        '2'
    } else if d == 3 {
        '3'
    } else if d == 4 {
        '4'
    } else if d == 5 {
        '5'
    } else if d == 6 {
        '6'
    } else if d == 7 {
        '7'
    } else if d == 8 {
        '8'
    } else if d == 9 {
        '9'
    } else if d == 10 {
        'A'
    } else if d == 11 {
        'B'
    } else if d == 12 {
        'C'
    } else if d == 13 {
        'D'
    } else if d == 14 {
        'E'
    } else {
        'F'
    }
}

fn digit(d: u64) -> (c: char)
    requires
        d < 16,
    ensures
        c == digit_char(d as nat),
{
    if d == 0 {
        '0'
    } else if d == 1 {
        '1'
    } else if d == 2 {
        '2'
    } else if d == 3 {
        '3'
    } else if d == 4 {
        '4'
    } else if d == 5 {
        '5'
    } else if d == 6 {
        '6'
    } else if d == 7 {
        '7'
    } else if d == 8 {
        '8'
    } else if d == 9 {
        '9'
    } else if d == 10 {
        'A'
    } else if d == 11 {
        'B'
    } else if d == 12 {
        'C'
    } else if d == 13 {
        'D'
    } else if d == 14 {
        'E'
    } else {
        'F'
    }
}

/// The decimal digits of `n`, without leading zeros ("0" for zero).
pub open spec fn decimal(n: nat) -> Seq<char>
    decreases n,
{
    if n < 10 {
        seq![digit_char(n)]
    } else {
        decimal(n / 10).push(digit_char(n % 10))
    }
}

/// The `k` lowest hexadecimal digits of `n`, most significant first.
pub open spec fn hex_digits(n: nat, k: nat) -> Seq<char>
    decreases k,
{
    if k == 0 {
        Seq::empty()
    } else {
        hex_digits(n / 16, (k - 1) as nat).push(digit_char(n % 16))
    }
}

/// A 256-bit value as 64 upper-case hexadecimal digits.
pub open spec fn hex_256(v: Bytes32) -> Seq<char> {
    hex_digits(v.w0 as nat, 16) + hex_digits(v.w1 as nat, 16) + hex_digits(v.w2 as nat, 16)
        + hex_digits(v.w3 as nat, 16)
}

/// 16 to the power `k`: the weight of a hexadecimal digit followed by `k`
/// digits.
pub open spec fn pow16(k: nat) -> nat
    decreases k,
{
    if k == 0 {
        1
    } else {
        16 * pow16((k - 1) as nat)
    }
}

/// The digits of a number whose low part `lo` has `k` digits are the digits
/// of the high part, then the `k` digits of `lo`.
pub proof fn lemma_hex_digits_split(hi: nat, lo: nat, j: nat, k: nat)
    requires
        lo < pow16(k),
    ensures
        hex_digits(hi * pow16(k) + lo, j + k) == hex_digits(hi, j) + hex_digits(lo, k),
    decreases k,
{
    if k == 0 {
        assert(pow16(0) == 1);
        assert(lo == 0);
        assert(hi * 1 == hi);
        assert(hi * pow16(k) + lo == hi);
        assert(hex_digits(hi, j) + hex_digits(lo, k) =~= hex_digits(hi, j));
    } else {
        let k1 = (k - 1) as nat;
        let p = pow16(k1);
        let n = hi * pow16(k) + lo;
        let q = lo / 16;
        let r = lo % 16;
        vstd::arithmetic::div_mod::lemma_fundamental_div_mod(lo as int, 16);
        assert(n == (hi * p + q) * 16 + r) by (nonlinear_arith)
            requires
                n == hi * pow16(k) + lo,
                pow16(k) == 16 * p,
                lo == 16 * q + r,
        ;
        vstd::arithmetic::div_mod::lemma_fundamental_div_mod_converse(n as int, 16, (hi * p + q) as int, r as int);
        assert(q < p) by (nonlinear_arith)
            requires
                lo < 16 * p,
                lo == 16 * q + r,
                0 <= r,
        ;
        lemma_hex_digits_split(hi, q, j, k1);
        assert((j + k - 1) as nat == j + k1);
        assert(hex_digits(n, j + k) == hex_digits((hi * p + q) as nat, j + k1).push(digit_char(r)));
        assert(hex_digits(lo, k) == hex_digits(q, k1).push(digit_char(r)));
        assert(hex_digits(hi, j) + hex_digits(lo, k) =~= (hex_digits(hi, j) + hex_digits(q, k1)).push(
            digit_char(r),
        ));
    }
}

/// The text of a 256-bit value is the 64 hexadecimal digits of the number it
/// stands for, most significant first.
pub proof fn lemma_hex_256_value(v: Bytes32)
    ensures
        hex_256(v) == hex_digits(bytes32_value(v), 64),
{
    reveal_with_fuel(pow16, 17);
    let p: nat = pow16(16);
    assert(p == 0x1_0000_0000_0000_0000);
    let a = v.w0 as nat;
    let b = v.w1 as nat;
    let c = v.w2 as nat;
    let d = v.w3 as nat;
    lemma_hex_digits_split(a, b, 16, 16);
    lemma_hex_digits_split(a * p + b, c, 32, 16);
    lemma_hex_digits_split((a * p + b) * p + c, d, 48, 16);
    assert(((a * p + b) * p + c) * p + d == a * 0x1_0000_0000_0000_0000_0000_0000_0000_0000_0000_0000_0000_0000
        + b * 0x1_0000_0000_0000_0000_0000_0000_0000_0000 + c * 0x1_0000_0000_0000_0000 + d)
        by (nonlinear_arith)
        requires
            p == 0x1_0000_0000_0000_0000,
    ;
}

/// Appends the decimal digits of `n`.
pub fn push_decimal(out: &mut String, n: u64)
    ensures
        final(out)@ == old(out)@ + decimal(n as nat),
    decreases n,
{
    if n >= 10 {
        push_decimal(out, n / 10);
    }
    push_char(out, digit(n % 10));
    assert(out@ =~= old(out)@ + decimal(n as nat));
}

/// Appends the `k` lowest hexadecimal digits of `n`.
fn push_hex(out: &mut String, n: u64, k: u64)
    ensures
        final(out)@ == old(out)@ + hex_digits(n as nat, k as nat),
    decreases k,
{
    if k > 0 {
        push_hex(out, n / 16, k - 1);
        push_char(out, digit(n % 16));
    }
    assert(out@ =~= old(out)@ + hex_digits(n as nat, k as nat));
}

/// Appends a 256-bit value as 64 upper-case hexadecimal digits.
pub fn push_hex_256(out: &mut String, v: &Bytes32)
    ensures
        final(out)@ == old(out)@ + hex_256(*v),
{
    push_hex(out, v.w0, 16);
    push_hex(out, v.w1, 16);
    push_hex(out, v.w2, 16);
    push_hex(out, v.w3, 16);
    assert(out@ =~= old(out)@ + hex_256(*v));
}

/// Appends the characters of `s`.
fn push_chars(out: &mut String, s: &str)
    ensures
        final(out)@ == old(out)@ + s@,
{
    let ghost chars = s@;
    let mut i: usize = 0;
    let n = s.unicode_len();
    while i < n
        invariant
            n == chars.len(),
            chars == s@,
            0 <= i <= n,
            out@ == old(out)@ + chars.take(i as int),
        decreases n - i,
    {
        let c = s.get_char(i);
        push_char(out, c);
        assert(chars.take(i + 1) =~= chars.take(i as int).push(c));
        i = i + 1;
    }
    assert(chars.take(n as int) =~= chars);
}

/// The description of a pull request, as it is logged.
pub open spec fn asc_pull_req_text(r: AscPullReq) -> Seq<char> {
    match r.req_type {
        AscPullReqType::Blocks(b) => "\nacc:"@ + hex_256(b.start) + " max block count:"@ + decimal(
            b.count as nat,
        ) + " hash type: "@ + decimal(b.start_type.code_spec() as nat),
        AscPullReqType::AccountInfo(a) => "\ntarget:"@ + hex_256(a.target) + " hash type:"@
            + decimal(a.target_type.code_spec() as nat),
        AscPullReqType::Frontiers(f) => "\nstart:"@ + hex_256(f.start) + " count:"@ + decimal(
            f.count as nat,
        ),
    }
}

impl Bytes32 {
    /// The value as 64 upper-case hexadecimal digits.
    pub fn encode_hex(&self) -> (r: String)
        ensures
            r@ == hex_256(*self),
    {
        let mut out = String::new();
        push_hex_256(&mut out, self);
        assert(out@ =~= hex_256(*self));
        out
    }
}

impl AscPullReq {
    /// Describes the request: its start or target value and its parameters.
    pub fn to_display_string(&self) -> (r: String)
        ensures
            r@ == asc_pull_req_text(*self),
    {
        let mut out = String::new();
        match &self.req_type {
            AscPullReqType::Blocks(blocks) => {
                push_chars(&mut out, "\nacc:");
                push_hex_256(&mut out, &blocks.start);
                push_chars(&mut out, " max block count:");
                push_decimal(&mut out, blocks.count as u64);
                push_chars(&mut out, " hash type: ");
                push_decimal(&mut out, blocks.start_type.code() as u64);
            },
            AscPullReqType::AccountInfo(info) => {
                push_chars(&mut out, "\ntarget:");
                push_hex_256(&mut out, &info.target);
                push_chars(&mut out, " hash type:");
                push_decimal(&mut out, info.target_type.code() as u64);
            },
            AscPullReqType::Frontiers(frontiers) => {
                push_chars(&mut out, "\nstart:");
                push_hex_256(&mut out, &frontiers.start);
                push_chars(&mut out, " count:");
                push_decimal(&mut out, frontiers.count as u64);
            },
        }
        assert(out@ =~= asc_pull_req_text(*self));
        out
    }
}

/// The description of an account-info reply, as it is logged, with the
/// account given in its address form.
pub open spec fn account_info_ack_text(p: AccountInfoAckPayload, account_address: Seq<char>) -> Seq<
    char,
> {
    "\naccount public key:"@ + account_address + " account open:"@ + hex_256(p.account_open)
        + " account head:"@ + hex_256(p.account_head) + " block count:"@ + decimal(
        p.account_block_count as nat,
    ) + " confirmation frontier:"@ + hex_256(p.account_conf_frontier) + " confirmation height:"@
        + decimal(p.account_conf_height as nat)
}

impl AccountInfoAckPayload {
    /// Describes the account information; `account_address` is the text form
    /// of `self.account`.
    pub fn to_display_string(&self, account_address: &str) -> (r: String)
        ensures
            r@ == account_info_ack_text(*self, account_address@),
    {
        let mut out = String::new();
        push_chars(&mut out, "\naccount public key:");
        push_chars(&mut out, account_address);
        push_chars(&mut out, " account open:");
        push_hex_256(&mut out, &self.account_open);
        push_chars(&mut out, " account head:");
        push_hex_256(&mut out, &self.account_head);
        push_chars(&mut out, " block count:");
        push_decimal(&mut out, self.account_block_count);
        push_chars(&mut out, " confirmation frontier:");
        push_hex_256(&mut out, &self.account_conf_frontier);
        push_chars(&mut out, " confirmation height:");
        push_decimal(&mut out, self.account_conf_height);
        assert(out@ =~= account_info_ack_text(*self, account_address@));
        out
    }
}

/// The texts one after the other.
pub open spec fn concat_texts(texts: Seq<Seq<char>>) -> Seq<char>
    decreases texts.len(),
{
    if texts.len() == 0 {
        Seq::empty()
    } else {
        concat_texts(texts.drop_last()) + texts.last()
    }
}

/// The description of a pull reply, as it is logged: for blocks, the given
/// texts of the blocks in order; for account information, its description
/// with the given account address; for frontiers, nothing.
pub open spec fn asc_pull_ack_text(
    t: AscPullAckTypeView,
    account_address: Seq<char>,
    block_texts: Seq<Seq<char>>,
) -> Seq<char> {
    match t {
        AscPullAckTypeView::Blocks(_) => concat_texts(block_texts),
        AscPullAckTypeView::AccountInfo(p) => account_info_ack_text(p, account_address),
        AscPullAckTypeView::Frontiers(_) => Seq::empty(),
    }
}

impl AscPullAck {
    /// Describes the reply. `account_address` is the text form of the
    /// account of an account-info reply; `block_texts` are the text forms of
    /// the blocks of a blocks reply, in order.
    pub fn to_display_string(&self, account_address: &str, block_texts: &Vec<String>) -> (r: String)
        ensures
            r@ == asc_pull_ack_text(
                self@.pull_type,
                account_address@,
                block_texts@.map_values(|t: String| t@),
            ),
    {
        match &self.pull_type {
            AscPullAckType::Blocks(_) => {
                let mut out = String::new();
                let n = block_texts.len();
                let ghost texts = block_texts@.map_values(|t: String| t@);
                let mut i: usize = 0;
                while i < n
                    invariant
                        n == block_texts@.len(),
                        texts == block_texts@.map_values(|t: String| t@),
                        0 <= i <= n,
                        out@ == concat_texts(texts.take(i as int)),
                    decreases n - i,
                {
                    let t = &block_texts[i];
                    push_chars(&mut out, t.as_str());
                    assert(texts.take(i + 1).drop_last() =~= texts.take(i as int));
                    assert(texts.take(i + 1).last() == t@);
                    i = i + 1;
                }
                assert(texts.take(n as int) =~= texts);
                out
            },
            AscPullAckType::AccountInfo(info) => info.to_display_string(account_address),
            AscPullAckType::Frontiers(_) => {
                let out = String::new();
                assert(out@ =~= Seq::<char>::empty());
                out
            },
        }
    }
}

} // verus!
