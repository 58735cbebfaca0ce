//! The framer: every outbound response is encoded as a fixed-width,
//! zero-padded decimal length prefix followed by the response text, with no
//! other delimiter. The width is the digit count of the configured maximum
//! response length, so it is constant for the life of a server and a reader
//! knows exactly how many header characters to consume.

use vstd::prelude::*;

use crate::exception::BunkerError;

verus! {

/// The decimal digit character for `d`, when `0 <= d <= 9`.
pub open spec fn digit_char(d: int) -> char {
    if d == 0 {
        '0'
    } else if d == 1 {
        '1'
    } else if d == 2 {
        '2'
    } else if d == 3 {
        '3'
    } else if d == 4 {
        '4'
    } else if d == 5 {
        '5'
    } else if d == 6 {
        '6'
    } else if d == 7 {
        '7'
    } else if d == 8 {
        '8'
    } else {
        '9'
    }
}

/// The value of a decimal digit character, and -1 for any other character.
pub open spec fn digit_val(c: char) -> int {
    if c == '0' {
        0
    } else if c == '1' {
        1
    } else if c == '2' {
        2
    } else if c == '3' {
        3
    } else if c == '4' {
        4
    } else if c == '5' {
        5
    } else if c == '6' {
        6
    } else if c == '7' {
        7
    } else if c == '8' {
        8
    } else if c == '9' {
        9
    } else {
        -1
    }
}

/// Whether `c` is a decimal digit character.
pub open spec fn is_digit(c: char) -> bool {
    digit_val(c) >= 0
}

/// Whether every character of `s` is a decimal digit.
pub open spec fn is_digit_seq(s: Seq<char>) -> bool {
    forall|i: int| 0 <= i < s.len() ==> is_digit(#[trigger] s[i])
}

/// The number a digit sequence denotes, most significant digit first.
pub open spec fn dec_value(s: Seq<char>) -> int
    decreases s.len(),
{
    if s.len() == 0 {
        0
    } else {
        dec_value(s.drop_last()) * 10 + digit_val(s.last())
    }
}

/// The lowest `width` decimal digits of `n`, most significant first.
pub open spec fn dec_digits(n: int, width: nat) -> Seq<char>
    decreases width,
{
    if width == 0 {
        Seq::empty()
    } else {
        dec_digits(n / 10, (width - 1) as nat).push(digit_char(n % 10))
    }
}

/// Ten to the power `k`.
pub open spec fn pow10(k: nat) -> int
    decreases k,
{
    if k == 0 {
        1
    } else {
        10 * pow10((k - 1) as nat)
    }
}

/// How many decimal digits `n` has; 1 for `n = 0`.
pub open spec fn spec_digit_count(n: int) -> nat
    decreases n,
{
    if n < 10 {
        1
    } else {
        spec_digit_count(n / 10) + 1
    }
}

/// One frame: the length of `body`, zero-padded to the digit count of
/// `max_len`, followed by `body` itself.
pub open spec fn frame_spec(body: Seq<char>, max_len: int) -> Seq<char> {
    dec_digits(body.len() as int, spec_digit_count(max_len)) + body
}

/// Powers of ten are positive.
pub proof fn lemma_pow10_pos(k: nat)
    ensures
        pow10(k) >= 1,
    decreases k,
{
    if k > 0 {
        lemma_pow10_pos((k - 1) as nat);
    }
}

/// Appending one digit multiplies the denoted value by ten and adds the
/// digit's value.
pub proof fn lemma_dec_value_push(s: Seq<char>, c: char)
    ensures
        dec_value(s.push(c)) == dec_value(s) * 10 + digit_val(c),
{
    assert(s.push(c).len() == s.len() + 1);
    assert(s.push(c).drop_last() =~= s);
    assert(s.push(c).last() == c);
}

/// A digit sequence of length `k` denotes a value in `[0, pow10(k))`.
pub proof fn lemma_dec_value_bound(s: Seq<char>)
    requires
        is_digit_seq(s),
    ensures
        0 <= dec_value(s) < pow10(s.len()),
    decreases s.len(),
{
    if s.len() == 0 {
    } else {
        assert(is_digit_seq(s.drop_last())) by {
            assert(forall|i: int|
                0 <= i < s.drop_last().len() ==> #[trigger] s.drop_last()[i] == s[i]);
        }
        lemma_dec_value_bound(s.drop_last());
        assert(is_digit(s.last()));
        assert(dec_value(s) == dec_value(s.drop_last()) * 10 + digit_val(s.last()));
        assert(dec_value(s.drop_last()) * 10 + digit_val(s.last()) < pow10(s.len())) by {
            let v = dec_value(s.drop_last());
            let p = pow10((s.len() - 1) as nat);
            assert(v <= p - 1);
            assert(v * 10 <= (p - 1) * 10) by (nonlinear_arith)
                requires v <= p - 1;
            assert(pow10(s.len()) == 10 * p);
        }
        assert(dec_value(s.drop_last()) * 10 >= 0) by (nonlinear_arith)
            requires dec_value(s.drop_last()) >= 0;
    }
}

/// `dec_digits` always yields `width` digit characters.
pub proof fn lemma_dec_digits_wf(n: int, width: nat)
    requires
        n >= 0,
    ensures
        dec_digits(n, width).len() == width,
        is_digit_seq(dec_digits(n, width)),
    decreases width,
{
    if width > 0 {
        lemma_dec_digits_wf(n / 10, (width - 1) as nat);
        assert(0 <= n % 10 < 10);
        assert(is_digit(digit_char(n % 10)));
        let prev = dec_digits(n / 10, (width - 1) as nat);
        assert(forall|i: int|
            0 <= i < prev.push(digit_char(n % 10)).len() ==> is_digit(
                #[trigger] prev.push(digit_char(n % 10))[i],
            ));
    }
}

/// For `n < pow10(width)`, the padded digits of `n` denote `n` itself.
pub proof fn lemma_dec_digits_value(n: int, width: nat)
    requires
        0 <= n < pow10(width),
    ensures
        dec_value(dec_digits(n, width)) == n,
    decreases width,
{
    if width == 0 {
        assert(n == 0);
    } else {
        let q = n / 10;
        let r = n % 10;
        assert(0 <= r < 10);
        assert(n == 10 * q + r) by {
            vstd::arithmetic::div_mod::lemma_fundamental_div_mod(n, 10);
        }
        assert(q < pow10((width - 1) as nat)) by (nonlinear_arith)
            requires
                n < pow10(width),
                pow10(width) == 10 * pow10((width - 1) as nat),
                n == 10 * q + r,
                0 <= r < 10,
                q >= 0,
        ;
        lemma_dec_digits_value(q, (width - 1) as nat);
        lemma_dec_value_push(dec_digits(q, (width - 1) as nat), digit_char(r));
        assert(digit_val(digit_char(r)) == r);
    }
}

/// `n` is below ten to its own digit count, and the digit count is positive.
pub proof fn lemma_digit_count_bound(n: int)
    requires
        n >= 0,
    ensures
        n < pow10(spec_digit_count(n)),
        spec_digit_count(n) >= 1,
    decreases n,
{
    if n < 10 {
        assert(pow10(0) == 1);
        assert(pow10(1) == 10);
    } else {
        let q = n / 10;
        assert(0 <= q < n);
        lemma_digit_count_bound(q);
        assert(n == 10 * q + n % 10) by {
            vstd::arithmetic::div_mod::lemma_fundamental_div_mod(n, 10);
        }
        assert(n < 10 * pow10(spec_digit_count(q))) by (nonlinear_arith)
            requires
                q < pow10(spec_digit_count(q)),
                n == 10 * q + n % 10,
                0 <= n % 10 < 10,
        ;
    }
}

/// The digit count never exceeds the number itself plus one.
pub proof fn lemma_digit_count_small(n: int)
    requires
        n >= 0,
    ensures
        spec_digit_count(n) <= n + 1,
    decreases n,
{
    if n >= 10 {
        let q = n / 10;
        assert(0 <= q < n);
        lemma_digit_count_small(q);
        assert(q + 2 <= n + 1);
    }
}

/// Whether `width` header characters can be read off `f` as a decimal
/// length that fits in what follows them.
pub open spec fn decode_ok(f: Seq<char>, width: nat) -> bool {
    &&& width <= f.len()
    &&& is_digit_seq(f.subrange(0, width as int))
    &&& width + dec_value(f.subrange(0, width as int)) <= f.len()
}

/// The message a well-formed frame carries: the characters after the
/// header, as many as the header says.
pub open spec fn decoded_body(f: Seq<char>, width: nat) -> Seq<char> {
    f.subrange(width as int, width + dec_value(f.subrange(0, width as int)))
}

/// Splitting a digit string multiplies the front's value by ten to the
/// length of the back.
pub proof fn lemma_dec_value_append(s: Seq<char>, t: Seq<char>)
    ensures
        dec_value(s + t) == dec_value(s) * pow10(t.len()) + dec_value(t),
    decreases t.len(),
{
    if t.len() == 0 {
        assert(s + t =~= s);
        assert(pow10(0) == 1);
    } else {
        let t0 = t.drop_last();
        lemma_dec_value_append(s, t0);
        assert((s + t).drop_last() =~= s + t0);
        assert((s + t).last() == t.last());
        assert((s + t).len() > 0);
        assert(dec_value(s + t) == dec_value(s + t0) * 10 + digit_val(t.last()));
        assert((dec_value(s) * pow10(t0.len()) + dec_value(t0)) * 10 ==
            dec_value(s) * (10 * pow10(t0.len())) + dec_value(t0) * 10) by (nonlinear_arith);
        assert(pow10(t.len()) == 10 * pow10(t0.len()));
        assert(dec_value(t) == dec_value(t0) * 10 + digit_val(t.last()));
    }
}

/// The number of decimal digits of `n`; the header width for a maximum
/// response length of `n`.
pub fn digit_count(n: usize) -> (r: usize)
    ensures
        r == spec_digit_count(n as int),
        1 <= r,
    decreases n,
{
    if n < 10 {
        1
    } else {
        proof {
            lemma_digit_count_small(n as int / 10);
        }
        let rest = digit_count(n / 10);
        rest + 1
    }
}

/// The one-character string for the digit `d`.
fn digit_str(d: usize) -> (r: &'static str)
    requires
        d < 10,
    ensures
        r@ == seq![digit_char(d as int)],
{
    proof {
        reveal_strlit("0");
        reveal_strlit("1");
        reveal_strlit("2");
        reveal_strlit("3");
        reveal_strlit("4");
        reveal_strlit("5");
        reveal_strlit("6");
        reveal_strlit("7");
        reveal_strlit("8");
        reveal_strlit("9");
    }
    let r = if d == 0 {
        "0"
    } else if d == 1 {
        "1"
    } else if d == 2 {
        "2"
    } else if d == 3 {
        "3"
    } else if d == 4 {
        "4"
    } else if d == 5 {
        "5"
    } else if d == 6 {
        "6"
    } else if d == 7 {
        "7"
    } else if d == 8 {
        "8"
    } else {
        "9"
    };
    proof {
        assert(r@ =~= seq![digit_char(d as int)]);
    }
    r
}

/// The lowest `width` decimal digits of `n`, zero-padded on the left.
pub fn zero_pad(n: usize, width: usize) -> (r: String)
    ensures
        r@ == dec_digits(n as int, width as nat),
    decreases width,
{
    if width == 0 {
        String::new()
    } else {
        let mut s = zero_pad(n / 10, width - 1);
        s.append(digit_str(n % 10));
        proof {
            assert(s@ =~= dec_digits(n as int, width as nat));
        }
        s
    }
}

/// `n` written in decimal, with no padding.
pub fn dec_string(n: usize) -> (r: String)
    ensures
        r@ == dec_digits(n as int, spec_digit_count(n as int)),
{
    let w = digit_count(n);
    zero_pad(n, w)
}

/// Encodes `message` as one frame for a server whose maximum response
/// length is `max_len`: the message's length as a zero-padded decimal of
/// fixed width, then the message, no other delimiter. A message longer than
/// `max_len` is rejected, never truncated.
pub fn encode(message: &str, max_len: usize) -> (r: Result<String, BunkerError>)
    requires
        max_len >= 1,
    ensures
        message@.len() <= max_len ==> (r matches Ok(f) && f@ == frame_spec(
            message@,
            max_len as int,
        )),
        message@.len() > max_len ==> (r matches Err(BunkerError::FrameTooLarge(l)) && l
            == message@.len()),
{
    let l = message.unicode_len();
    if l > max_len {
        Err(BunkerError::FrameTooLarge(l))
    } else {
        let w = digit_count(max_len);
        let mut s = zero_pad(l, w);
        s.append(message);
        Ok(s)
    }
}

/// The value of the digit character `c`, or 10 when `c` is no digit.
fn digit_of(c: char) -> (r: usize)
    ensures
        is_digit(c) ==> r == digit_val(c),
        !is_digit(c) ==> r == 10,
{
    if c == '0' {
        0
    } else if c == '1' {
        1
    } else if c == '2' {
        2
    } else if c == '3' {
        3
    } else if c == '4' {
        4
    } else if c == '5' {
        5
    } else if c == '6' {
        6
    } else if c == '7' {
        7
    } else if c == '8' {
        8
    } else if c == '9' {
        9
    } else {
        10
    }
}

/// Decodes one frame: reads the first `width` characters as a decimal
/// length, and returns that many following characters as the message. Fails
/// when fewer than `width` characters are present, when the header is not
/// all digits, or when fewer characters follow than the header announces.
pub fn decode(fr: &str, width: usize) -> (r: Result<String, BunkerError>)
    ensures
        decode_ok(fr@, width as nat) ==> (r matches Ok(b) && b@ == decoded_body(
            fr@,
            width as nat,
        )),
        !decode_ok(fr@, width as nat) ==> (r matches Err(BunkerError::BadRequest(_))),
{
    let flen = fr.unicode_len();
    if width > flen {
        return Err(BunkerError::BadRequest("Frame shorter than its header width.".to_owned()));
    }
    let mut i: usize = 0;
    let mut l: usize = 0;
    while i < width
        invariant
            i <= width <= flen,
            flen == fr@.len(),
            is_digit_seq(fr@.subrange(0, i as int)),
            l == dec_value(fr@.subrange(0, i as int)),
            l <= flen,
        decreases width - i,
    {
        let c = fr.get_char(i);
        let d = digit_of(c);
        proof {
            assert(fr@.subrange(0, i + 1) =~= fr@.subrange(0, i as int).push(fr@[i as int]));
            lemma_dec_value_push(fr@.subrange(0, i as int), fr@[i as int]);
        }
        if d >= 10 {
            proof {
                assert(fr@.subrange(0, width as int)[i as int] == fr@[i as int]);
                assert(!is_digit_seq(fr@.subrange(0, width as int)));
            }
            return Err(BunkerError::BadRequest("Frame header is not a decimal number.".to_owned()));
        }
        let next: u128 = (l as u128) * 10 + (d as u128);
        if next > (flen as u128) {
            proof {
                let header = fr@.subrange(0, width as int);
                let front = fr@.subrange(0, i + 1);
                let back = fr@.subrange(i + 1, width as int);
                assert(header =~= front + back);
                if is_digit_seq(header) {
                    assert forall|j: int| 0 <= j < back.len() implies is_digit(
                        #[trigger] back[j],
                    ) by {
                        assert(back[j] == fr@[i + 1 + j]);
                        assert(header[i + 1 + j] == fr@[i + 1 + j]);
                        assert(is_digit(header[i + 1 + j]));
                    }
                    lemma_dec_value_append(front, back);
                    lemma_dec_value_bound(back);
                    lemma_pow10_pos(back.len());
                    assert(dec_value(front) * pow10(back.len()) >= dec_value(front))
                        by (nonlinear_arith)
                        requires
                            pow10(back.len()) >= 1,
                            dec_value(front) >= 0,
                    ;
                    assert(dec_value(header) > flen);
                }
            }
            return Err(BunkerError::BadRequest("Frame header exceeds the frame.".to_owned()));
        }
        l = next as usize;
        i = i + 1;
    }
    if l > flen - width {
        return Err(BunkerError::BadRequest("Frame shorter than its header announces.".to_owned()));
    }
    let body = fr.substring_char(width, width + l);
    Ok(body.to_owned())
}

/// Round trip: any message no longer than `max_len` comes back unchanged
/// from decoding its own frame, and the header width depends on `max_len`
/// alone, never on the message.
pub proof fn lemma_frame_round_trip(body: Seq<char>, max_len: int)
    requires
        1 <= max_len,
        body.len() <= max_len,
    ensures
        decode_ok(frame_spec(body, max_len), spec_digit_count(max_len)),
        decoded_body(frame_spec(body, max_len), spec_digit_count(max_len)) == body,
        frame_spec(body, max_len).len() == spec_digit_count(max_len) + body.len(),
{
    let w = spec_digit_count(max_len);
    let f = frame_spec(body, max_len);
    let header = dec_digits(body.len() as int, w);
    lemma_digit_count_bound(max_len);
    assert(body.len() < pow10(w));
    lemma_dec_digits_wf(body.len() as int, w);
    lemma_dec_digits_value(body.len() as int, w);
    assert(f.subrange(0, w as int) =~= header);
    assert(f.subrange(w as int, w + body.len() as int) =~= body);
}

} // verus!
