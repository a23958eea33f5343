//! Properties of the codec and of the dialler that relate several functions,
//! proved over their specifications.
use vstd::prelude::*;
use vstd::utf8::*;
use crate::checksum::crc16_arc;
use crate::crypto::{
    cbc_decrypt, cbc_encrypt, cipher_round_trips, decrypt_spec, encrypted_text, hex_byte_value,
    hex_decode, hex_upper, is_padding_for, pad_len, valid_key_len,
};
use crate::dialler::next_seq;
use crate::message::{
    clear_body, encrypted_body, encrypted_frame, encrypted_token, ext_text, has_data,
    is_encrypted_frame_of, plain_payload, frame_text, header_text, or_empty, payload_text, prefix_or_default, starred,
    MessageModel,
};
use crate::parser::{
    decrypted_data, remove_padding_spec, account_run, check_spec, ext_run, hex_run, index_of, is_account_char, opt_field_len, parse_fields,
    parse_fields_marked,
    parse_header, parse_payload, parse_spec,
};
use crate::text::{
    all_dec, all_hex, dec_value, digit_char, digits, hex_char_value, hex_value, is_dec_char,
    is_hex_char, lemma_encode_utf8_concat,
};
use crate::utils::is_prefixed_hex;

verus! {

/// A frame accepted by the parser declares the length and the CRC of its body:
/// the bytes between the eight header digits and the final character.
pub proof fn lemma_accepted_frame_checks(s: Seq<char>, key: Option<Seq<char>>)
    requires
        parse_spec(s, key) is Ok,
    ensures
        parse_header(s) is Some,
        parse_header(s)->0.len == encode_utf8(s).len() - 10,
        parse_header(s)->0.crc == crc16_arc(
            encode_utf8(s).subrange(9, encode_utf8(s).len() - 1),
        ) as nat,
{
}

/// Consecutive sends of a dialler carry consecutive sequence numbers, from
/// 9999 back to 1, always within 1 to 9999.
pub proof fn lemma_consecutive_sequences(s: u16)
    ensures
        1 <= next_seq(s) <= 9999,
        s < 9999 ==> next_seq(s) == s + 1 && next_seq(s) > s,
        s >= 9999 ==> next_seq(s) == 1,
{
}

pub open spec fn pow(base: nat, w: nat) -> nat
    decreases w,
{
    if w == 0 {
        1
    } else {
        base * pow(base, (w - 1) as nat)
    }
}

proof fn lemma_digit_char(d: nat)
    requires
        d < 16,
    ensures
        is_hex_char(digit_char(d)),
        hex_char_value(digit_char(d)) == d,
        d < 10 ==> is_dec_char(digit_char(d)) && (digit_char(d) as u32 - '0' as u32) == d,
        (digit_char(d) as u32) < 128,
{
}

proof fn lemma_digits_value(n: nat, base: nat, w: nat)
    requires
        base == 10 || base == 16,
        1 <= w,
        n < pow(base, w),
    ensures
        digits(n, base, w).len() == w,
        base == 16 ==> all_hex(digits(n, base, w)) && hex_value(digits(n, base, w)) == n,
        base == 10 ==> all_dec(digits(n, base, w)) && dec_value(digits(n, base, w)) == n,
        forall|i: int| 0 <= i < w ==> ((#[trigger] digits(n, base, w)[i]) as u32) < 128,
    decreases w,
{
    let d = digits(n, base, w);
    if w == 1 {
        assert(pow(base, 1) == base) by {
            assert(pow(base, 0) == 1);
        }
        lemma_digit_char(n);
        assert(d == seq![digit_char(n)]);
        assert(d.drop_last() =~= Seq::<char>::empty());
        assert(d.last() == digit_char(n));
        assert(hex_value(d.drop_last()) == 0);
        assert(dec_value(d.drop_last()) == 0);
        if base == 16 {
            assert(hex_value(d) == hex_value(d.drop_last()) * 16 + hex_char_value(d.last()));
        } else {
            assert(dec_value(d) == dec_value(d.drop_last()) * 10 + (d.last() as u32 - '0' as u32) as nat);
        }
    } else {
        assert(n / base < pow(base, (w - 1) as nat)) by (nonlinear_arith)
            requires
                n < pow(base, w),
                pow(base, w) == base * pow(base, (w - 1) as nat),
                base > 0,
        ;
        lemma_digits_value(n / base, base, (w - 1) as nat);
        lemma_digit_char(n % base);
        assert(d == digits(n / base, base, (w - 1) as nat) + seq![digit_char(n % base)]);
        assert(d.drop_last() =~= digits(n / base, base, (w - 1) as nat));
        assert(n == (n / base) * base + n % base) by (nonlinear_arith)
            requires
                base > 0,
        ;
        let p = digits(n / base, base, (w - 1) as nat);
        assert(d.last() == digit_char(n % base));
        assert forall|i: int| 0 <= i < d.len() implies (base == 16 ==> is_hex_char(#[trigger] d[i])) && (
        base == 10 ==> is_dec_char(d[i])) by {
            if i < d.len() - 1 {
                assert(d[i] == p[i]);
            }
        }
        if base == 16 {
            assert(hex_value(d) == hex_value(d.drop_last()) * 16 + hex_char_value(d.last()));
        } else {
            assert(dec_value(d) == dec_value(d.drop_last()) * 10 + (d.last() as u32 - '0' as u32) as nat);
        }
    }
}

proof fn lemma_index_of_concat(a: Seq<char>, b: Seq<char>, c: char)
    requires
        !a.contains(c),
    ensures
        index_of(a + b, c) == a.len() + index_of(b, c),
    decreases a.len(),
{
    if a.len() == 0 {
        assert(a + b =~= b);
    } else {
        assert((a + b).drop_first() =~= a.drop_first() + b);
        assert(!a.drop_first().contains(c)) by {
            if a.drop_first().contains(c) {
                let i = choose|i: int| 0 <= i < a.drop_first().len() && a.drop_first()[i] == c;
                assert(a[i + 1] == c);
            }
        }
        assert(a[0] != c);
        lemma_index_of_concat(a.drop_first(), b, c);
    }
}

proof fn lemma_index_of_head(b: Seq<char>, c: char)
    ensures
        index_of(seq![c] + b, c) == 0,
{
    assert((seq![c] + b)[0] == c);
}

proof fn lemma_hex_run_concat(a: Seq<char>, b: Seq<char>, max: nat)
    requires
        all_hex(a),
        a.len() <= max,
        b.len() > 0,
        !is_hex_char(b[0]),
    ensures
        hex_run(a + b, max) == a.len(),
    decreases a.len(),
{
    if a.len() == 0 {
        assert(a + b =~= b);
    } else {
        assert((a + b).drop_first() =~= a.drop_first() + b);
        assert(is_hex_char(a[0]));
        lemma_hex_run_concat(a.drop_first(), b, (max - 1) as nat);
    }
}

proof fn lemma_account_run_concat(a: Seq<char>, b: Seq<char>)
    requires
        forall|i: int| 0 <= i < a.len() ==> is_account_char(#[trigger] a[i]),
        b.len() > 0,
        !is_account_char(b[0]),
    ensures
        account_run(a + b) == a.len(),
    decreases a.len(),
{
    if a.len() == 0 {
        assert(a + b =~= b);
    } else {
        assert((a + b).drop_first() =~= a.drop_first() + b);
        assert(is_account_char(a[0]));
        lemma_account_run_concat(a.drop_first(), b);
    }
}

proof fn lemma_ext_text_front(e: Seq<Seq<char>>)
    requires
        e.len() > 0,
    ensures
        ext_text(e) == seq!['['] + e[0] + seq![']'] + ext_text(e.drop_first()),
    decreases e.len(),
{
    if e.len() == 1 {
        assert(e.drop_last() =~= Seq::<Seq<char>>::empty());
        assert(e.drop_first() =~= Seq::<Seq<char>>::empty());
        assert(ext_text(e) =~= seq!['['] + e[0] + seq![']'] + ext_text(e.drop_first()));
    } else {
        lemma_ext_text_front(e.drop_last());
        assert(e.drop_last().drop_first() =~= e.drop_first().drop_last());
        assert(e.drop_first().last() == e.last());
        assert(ext_text(e) =~= seq!['['] + e[0] + seq![']'] + ext_text(e.drop_first()));
    }
}

/// No segment holds `]`.
pub open spec fn segments_ok(e: Seq<Seq<char>>) -> bool {
    forall|i: int| 0 <= i < e.len() ==> !(#[trigger] e[i]).contains(']')
}

proof fn lemma_ext_run_text(e: Seq<Seq<char>>, t: Seq<char>)
    requires
        segments_ok(e),
        t.len() == 0 || t[0] != '[',
    ensures
        ext_run(ext_text(e) + t) == (e, t),
    decreases e.len(),
{
    if e.len() == 0 {
        assert(ext_text(e) + t =~= t);
    } else {
        lemma_ext_text_front(e);
        let s = ext_text(e) + t;
        let rest = ext_text(e.drop_first()) + t;
        assert(s =~= seq!['['] + (e[0] + (seq![']'] + rest)));
        assert(s.drop_first() =~= e[0] + (seq![']'] + rest));
        assert(!e[0].contains(']'));
        lemma_index_of_concat(e[0], seq![']'] + rest, ']');
        lemma_index_of_head(rest, ']');
        assert(s.drop_first().take(e[0].len() as int) =~= e[0]);
        assert(s.drop_first().skip((e[0].len() + 1) as int) =~= rest);
        assert(segments_ok(e.drop_first())) by {
            assert forall|i: int| 0 <= i < e.drop_first().len() implies !(#[trigger] e.drop_first()[i]).contains(']') by {
                assert(e.drop_first()[i] == e[i + 1]);
            }
        }
        lemma_ext_run_text(e.drop_first(), t);
        assert(seq![e[0]] + e.drop_first() =~= e);
    }
}

/// Header fields that the parser reads back unchanged from a frame with this token.
pub open spec fn header_fields_ok(token: Seq<char>, m: MessageModel) -> bool {
    &&& !token.contains('"')
    &&& m.sequence <= 9999
    &&& (m.receiver is Some ==> is_prefixed_hex(m.receiver->0, 'R'))
    &&& m.line_prefix is Some
    &&& is_prefixed_hex(m.line_prefix->0, 'L')
    &&& m.account.len() > 0
    &&& forall|i: int| 0 <= i < m.account.len() ==> is_account_char(#[trigger] m.account[i])
}

proof fn lemma_pow16_4()
    ensures
        pow(16, 4) == 65536,
        pow(10, 4) == 10000,
{
    assert(pow(16, 0) == 1);
    assert(pow(16, 1) == 16);
    assert(pow(16, 2) == 256);
    assert(pow(16, 3) == 4096);
    assert(pow(10, 0) == 1);
    assert(pow(10, 1) == 10);
    assert(pow(10, 2) == 100);
    assert(pow(10, 3) == 1000);
}

proof fn lemma_opt_field(f: Seq<char>, rest: Seq<char>, first: char)
    requires
        is_prefixed_hex(f, first),
        rest.len() > 0,
        !is_hex_char(rest[0]),
    ensures
        opt_field_len(f + rest, first) == f.len(),
        (f + rest).take(f.len() as int) == f,
        (f + rest).skip(f.len() as int) == rest,
{
    let v = f + rest;
    assert(v.drop_first() =~= f.drop_first() + rest);
    lemma_hex_run_concat(f.drop_first(), rest, 6);
    assert(v.take(f.len() as int) =~= f);
    assert(v.skip(f.len() as int) =~= rest);
}

/// The fields after the token's closing quote read back as written.
proof fn lemma_fields_of_text(token: Seq<char>, m: MessageModel, tail: Seq<char>)
    requires
        header_fields_ok(token, m),
        tail.len() > 0,
        !is_account_char(tail[0]),
    ensures
        ({
            let u = digits(m.sequence as nat, 10, 4) + or_empty(m.receiver) + prefix_or_default(
                m.line_prefix,
            ) + seq!['#'] + m.account + tail;
            &&& parse_fields_marked(u) is Some
            &&& parse_fields(u) is Some
            &&& parse_fields(u)->0.sequence == m.sequence as nat
            &&& parse_fields(u)->0.receiver == m.receiver
            &&& parse_fields(u)->0.line_prefix == m.line_prefix
            &&& parse_fields(u)->0.account == m.account
            &&& parse_fields(u)->0.rest == tail
        }),
{
    let q = digits(m.sequence as nat, 10, 4);
    let r = or_empty(m.receiver);
    let l = m.line_prefix->0;
    let x = seq!['#'] + m.account + tail;
    let u = q + r + l + seq!['#'] + m.account + tail;
    lemma_pow16_4();
    lemma_digits_value(m.sequence as nat, 10, 4);
    assert(u.take(4) =~= q);
    let v = u.skip(4);
    assert(v =~= r + (l + x));
    let w = l + x;
    assert(w[0] == 'L');
    if m.receiver is Some {
        lemma_opt_field(r, w, 'R');
        assert(opt_field_len(v, 'R') == r.len());
    } else {
        assert(v =~= w);
        assert(opt_field_len(v, 'R') == 0);
    }
    assert(v.skip(opt_field_len(v, 'R') as int) =~= w);
    assert(x[0] == '#');
    lemma_opt_field(l, x, 'L');
    assert(x.drop_first() =~= m.account + tail);
    lemma_account_run_concat(m.account, tail);
    assert(x.drop_first().take(m.account.len() as int) =~= m.account);
    assert(x.drop_first().skip(m.account.len() as int) =~= tail);
    if m.receiver is Some {
        assert(v.take(r.len() as int) =~= r);
    }
}

/// The header of a frame reads back as written, followed by `tail` and the final CR.
proof fn lemma_header_of_frame(token: Seq<char>, m: MessageModel, tail: Seq<char>)
    requires
        header_fields_ok(token, m),
        tail.len() > 0,
        !is_account_char(tail[0]),
        encode_utf8(header_text(token, m) + tail).len() <= 0xFFFF,
    ensures
        ({
            let body = header_text(token, m) + tail;
            let f = frame_text(body);
            &&& parse_header(f) is Some
            &&& parse_header(f)->0.crc == crc16_arc(encode_utf8(body)) as nat
            &&& parse_header(f)->0.len == encode_utf8(body).len()
            &&& parse_header(f)->0.token == token
            &&& parse_header(f)->0.sequence == m.sequence as nat
            &&& parse_header(f)->0.receiver == m.receiver
            &&& parse_header(f)->0.line_prefix == m.line_prefix
            &&& parse_header(f)->0.account == m.account
            &&& parse_header(f)->0.rest == tail + seq!['\r']
        }),
{
    let body = header_text(token, m) + tail;
    let crc = crc16_arc(encode_utf8(body)) as nat;
    let len = encode_utf8(body).len();
    let c4 = digits(crc, 16, 4);
    let l4 = digits(len, 16, 4);
    lemma_pow16_4();
    lemma_digits_value(crc, 16, 4);
    lemma_digits_value(len, 16, 4);
    let f = frame_text(body);
    assert(f =~= seq!['\n'] + c4 + l4 + body + seq!['\r']);
    assert(f.subrange(1, 5) =~= c4);
    assert(f.subrange(5, 9) =~= l4);
    assert(all_hex(f.subrange(1, 9))) by {
        assert forall|k: int| 0 <= k < 8 implies is_hex_char(#[trigger] f.subrange(1, 9)[k]) by {
            if k < 4 {
                assert(f.subrange(1, 9)[k] == c4[k]);
            } else {
                assert(f.subrange(1, 9)[k] == l4[k - 4]);
            }
        }
    }
    let u = digits(m.sequence as nat, 10, 4) + or_empty(m.receiver) + prefix_or_default(m.line_prefix)
        + seq!['#'] + m.account + (tail + seq!['\r']);
    assert(body =~= seq!['"'] + token + (seq!['"'] + digits(m.sequence as nat, 10, 4) + or_empty(
        m.receiver,
    ) + prefix_or_default(m.line_prefix) + seq!['#'] + m.account + tail));
    assert(f[9] == '"');
    let t = f.skip(10);
    assert(t =~= token + (seq!['"'] + u));
    lemma_index_of_concat(token, seq!['"'] + u, '"');
    lemma_index_of_head(u, '"');
    assert(t.take(token.len() as int) =~= token);
    assert(t.skip((token.len() + 1) as int) =~= u);
    lemma_fields_of_text(token, m, tail + seq!['\r']);
}

/// The length and CRC that a frame declares are those of its body.
proof fn lemma_checks_of_frame(body: Seq<char>)
    requires
        encode_utf8(body).len() <= 0xFFFF,
    ensures
        check_spec(
            frame_text(body),
            encode_utf8(body).len(),
            crc16_arc(encode_utf8(body)) as nat,
        ) == Ok::<(), crate::parser::DC09Error>(()),
{
    let crc = crc16_arc(encode_utf8(body)) as nat;
    let len = encode_utf8(body).len();
    let c4 = digits(crc, 16, 4);
    let l4 = digits(len, 16, 4);
    lemma_pow16_4();
    lemma_digits_value(crc, 16, 4);
    lemma_digits_value(len, 16, 4);
    let head = seq!['\n'] + c4 + l4;
    let f = frame_text(body);
    assert(f =~= head + body + seq!['\r']);
    assert(is_ascii_chars(head)) by {
        assert forall|i: int| 0 <= i < head.len() implies '\0' <= #[trigger] head[i] <= '\u{7f}' by {
            if i == 0 {
            } else if i < 5 {
                assert(head[i] == c4[i - 1]);
            } else {
                assert(head[i] == l4[i - 5]);
            }
        }
    }
    crate::text::lemma_encode_utf8_ascii(head);
    crate::text::lemma_encode_utf8_ascii(seq!['\r']);
    lemma_encode_utf8_concat(head, body);
    lemma_encode_utf8_concat(head + body, seq!['\r']);
    let e = encode_utf8(f);
    assert(e.subrange(9, (9 + len) as int) =~= encode_utf8(body));
}

/// The payload of a clear frame reads back as written.
#[verifier::rlimit(40)]
proof fn lemma_payload_of_text(m: MessageModel)
    requires
        m.data is Some ==> m.data->0.len() > 0 && !m.data->0.contains(']'),
        segments_ok(m.extended),
        m.timestamp is Some ==> !m.timestamp->0.contains('\r'),
    ensures
        parse_payload(payload_text(m) + seq!['\r']) is Some,
        ({
            let p = parse_payload(payload_text(m) + seq!['\r'])->0;
            &&& p.data == or_empty(m.data)
            &&& p.extended == m.extended
            &&& p.timestamp == m.timestamp
        }),
{
    let d = or_empty(m.data);
    let ts = match m.timestamp {
        Some(t) => seq!['_'] + t,
        None => seq![],
    };
    let tsr = ts + seq!['\r'];
    let s = payload_text(m) + seq!['\r'];
    assert(s =~= seq!['['] + (d + (seq![']'] + (ext_text(m.extended) + tsr))));
    let a = s.drop_first();
    assert(a =~= d + (seq![']'] + (ext_text(m.extended) + tsr)));
    assert(!d.contains(']'));
    lemma_index_of_concat(d, seq![']'] + (ext_text(m.extended) + tsr), ']');
    lemma_index_of_head(ext_text(m.extended) + tsr, ']');
    assert(a.take(d.len() as int) =~= d);
    assert(a.skip((d.len() + 1) as int) =~= ext_text(m.extended) + tsr);
    assert(tsr[0] != '[');
    lemma_ext_run_text(m.extended, tsr);
    if m.timestamp is Some {
        let t = m.timestamp->0;
        assert(tsr.drop_first() =~= t + seq!['\r']);
        lemma_index_of_concat(t, seq!['\r'], '\r');
        lemma_index_of_head(Seq::<char>::empty(), '\r');
        assert(seq!['\r'] + Seq::<char>::empty() =~= seq!['\r']);
        assert(tsr.drop_first().take(t.len() as int) =~= t);
    }
}

/// A clear message whose frame the parser reads back as the same message.
pub open spec fn clear_frameable(m: MessageModel) -> bool {
    &&& !starred(m.token)
    &&& header_fields_ok(m.token, m)
    &&& (m.data is Some ==> m.data->0.len() > 0 && !m.data->0.contains(']'))
    &&& segments_ok(m.extended)
    &&& (m.timestamp is Some ==> !m.timestamp->0.contains('\r'))
    &&& encode_utf8(clear_body(m)).len() <= 0xFFFF
}

/// Serialising a clear message and parsing the frame gives the message back.
/// The line prefix must be set (an absent one is written `L0` and read back as
/// such), data must be non-empty when present (empty data reads back as none),
/// and no field may hold the delimiter that ends it.
pub proof fn lemma_clear_round_trip(m: MessageModel, key: Option<Seq<char>>)
    requires
        clear_frameable(m),
    ensures
        parse_spec(frame_text(clear_body(m)), key) == Ok::<MessageModel, crate::parser::DC09Error>(m),
{
    let tail = payload_text(m);
    assert(clear_body(m) == header_text(m.token, m) + tail);
    assert(tail[0] == '[');
    lemma_header_of_frame(m.token, m, tail);
    lemma_checks_of_frame(clear_body(m));
    lemma_payload_of_text(m);
    let h = parse_header(frame_text(clear_body(m)))->0;
    let p = parse_payload(h.rest)->0;
    let r = crate::parser::message_of(h, p, false);
    assert(r.data == m.data);
    assert(r == m);
}

proof fn lemma_hex_upper_ascii(b: Seq<u8>)
    ensures
        hex_upper(b).len() == 2 * b.len(),
        is_ascii_chars(hex_upper(b)),
        hex_decode(encode_utf8(hex_upper(b))) == Some(b),
    decreases b.len(),
{
    if b.len() == 0 {
        assert(encode_utf8(hex_upper(b)) =~= Seq::<u8>::empty());
    } else {
        let hi = b[0] as nat / 16;
        let lo = b[0] as nat % 16;
        let h = hex_upper(b);
        let rest = hex_upper(b.drop_first());
        lemma_hex_upper_ascii(b.drop_first());
        lemma_digit_char(hi);
        lemma_digit_char(lo);
        let two = seq![digit_char(hi), digit_char(lo)];
        assert(h == two + rest);
        assert(is_ascii_chars(two));
        assert(is_ascii_chars(h)) by {
            assert forall|i: int| 0 <= i < h.len() implies '\0' <= #[trigger] h[i] <= '\u{7f}' by {
                if i < 2 {
                    assert(h[i] == two[i]);
                } else {
                    assert(h[i] == rest[i - 2]);
                }
            }
        }
        lemma_encode_utf8_concat(two, rest);
        crate::text::lemma_encode_utf8_ascii(two);
        let e = encode_utf8(h);
        assert(e.skip(2) =~= encode_utf8(rest));
        assert(e[0] == digit_char(hi) as u8);
        assert(e[1] == digit_char(lo) as u8);
        assert(hex_byte_value(e[0]) == Some(hi));
        assert(hex_byte_value(e[1]) == Some(lo));
        assert((hi * 16 + lo) as u8 == b[0]);
        assert(seq![b[0]] + b.drop_first() =~= b);
    }
}

/// A message whose encrypted frame the parser reads back as the same message.
pub open spec fn encrypted_frameable(m: MessageModel) -> bool {
    &&& header_fields_ok(encrypted_token(m.token), m)
    &&& (m.data is Some ==> m.data->0.len() > 0 && !m.data->0.contains(']'))
    &&& segments_ok(m.extended)
    &&& (m.timestamp is Some ==> !m.timestamp->0.contains('\r'))
    &&& encode_utf8(header_text(encrypted_token(m.token), m)).len() + 2 * encode_utf8(
        plain_payload(m),
    ).len() + 33 <= 0xFFFF
}

/// The decrypted payload of an encrypted frame reads back as the message's payload.
proof fn lemma_padded_payload_with_data(m: MessageModel, pad: Seq<char>)
    requires
        is_padding_for(pad, plain_payload(m)),
        has_data(m),
        !m.data->0.contains(']'),
        segments_ok(m.extended),
        m.timestamp is Some ==> !m.timestamp->0.contains('\r'),
    ensures
        parse_payload(pad + plain_payload(m)) is Some,
        ({
            let p = parse_payload(pad + plain_payload(m))->0;
            &&& decrypted_data(p.data) == m.data
            &&& p.extended == m.extended
            &&& p.timestamp == m.timestamp
        }),
{
    let d = m.data->0;
    let ts = match m.timestamp {
        Some(t) => seq!['_'] + t,
        None => seq![],
    };
    let rest = ext_text(m.extended) + ts;
    assert(payload_text(m).drop_first() =~= d + (seq![']'] + rest));
    let s = pad + plain_payload(m);
    let pd = pad + seq!['|'] + d;
    assert(s =~= pd + (seq![']'] + rest));
    assert(pad.len() > 0) by {
        assert(pad_len(encode_utf8(plain_payload(m)).len()) >= 1);
    }
    assert(is_ascii_alnum_all(pad)) by {
        assert forall|i: int| 0 <= i < pad.len() implies crate::text::is_ascii_alnum(#[trigger] pad[i]) by {}
    }
    assert(s[0] == pad[0]);
    assert(!pd.contains(']')) by {
        if pd.contains(']') {
            let i = choose|i: int| 0 <= i < pd.len() && pd[i] == ']';
            if i < pad.len() {
                assert(pd[i] == pad[i]);
                assert(crate::text::is_ascii_alnum(pad[i]));
            } else if i == pad.len() {
            } else {
                assert(pd[i] == d[i - pad.len() - 1]);
            }
        }
    }
    lemma_index_of_concat(pd, seq![']'] + rest, ']');
    lemma_index_of_head(rest, ']');
    assert(s.take(pd.len() as int) =~= pd);
    assert(s.skip((pd.len() + 1) as int) =~= rest);
    assert(ts.len() == 0 || ts[0] != '[');
    lemma_ext_run_text(m.extended, ts);
    if m.timestamp is Some {
        let t = m.timestamp->0;
        assert(ts.drop_first() =~= t);
        lemma_index_of_concat(t, Seq::<char>::empty(), '\r');
        assert(t + Seq::<char>::empty() =~= t);
        assert(t.take(t.len() as int) =~= t);
    }
    assert(!pad.contains('|')) by {
        if pad.contains('|') {
            let i = choose|i: int| 0 <= i < pad.len() && pad[i] == '|';
            assert(crate::text::is_ascii_alnum(pad[i]));
        }
    }
    lemma_index_of_concat(pad, seq!['|'] + d, '|');
    lemma_index_of_head(d, '|');
    assert(pd =~= pad + (seq!['|'] + d));
    assert(pd.skip((pad.len() + 1) as int) =~= d);
    assert(remove_padding_spec(pd) == d);
}

/// Without data, the decrypted payload is the padding, a `]`, and the rest.
proof fn lemma_padded_payload_without_data(m: MessageModel, pad: Seq<char>)
    requires
        is_padding_for(pad, plain_payload(m)),
        m.data is None,
        segments_ok(m.extended),
        m.timestamp is Some ==> !m.timestamp->0.contains('\r'),
    ensures
        parse_payload(pad + plain_payload(m)) is Some,
        ({
            let p = parse_payload(pad + plain_payload(m))->0;
            &&& decrypted_data(p.data) == m.data
            &&& p.extended == m.extended
            &&& p.timestamp == m.timestamp
        }),
{
    let ts = match m.timestamp {
        Some(t) => seq!['_'] + t,
        None => seq![],
    };
    let rest = ext_text(m.extended) + ts;
    assert(payload_text(m).drop_first() =~= seq![']'] + rest);
    let s = pad + plain_payload(m);
    assert(s =~= pad + (seq![']'] + rest));
    assert(pad.len() > 0) by {
        assert(pad_len(encode_utf8(plain_payload(m)).len()) >= 1);
    }
    assert(crate::text::is_ascii_alnum(pad[0]));
    assert(s[0] == pad[0]);
    assert(!pad.contains(']')) by {
        if pad.contains(']') {
            let i = choose|i: int| 0 <= i < pad.len() && pad[i] == ']';
            assert(crate::text::is_ascii_alnum(pad[i]));
        }
    }
    lemma_index_of_concat(pad, seq![']'] + rest, ']');
    lemma_index_of_head(rest, ']');
    assert(s.take(pad.len() as int) =~= pad);
    assert(s.skip((pad.len() + 1) as int) =~= rest);
    assert(ts.len() == 0 || ts[0] != '[');
    lemma_ext_run_text(m.extended, ts);
    if m.timestamp is Some {
        let t = m.timestamp->0;
        assert(ts.drop_first() =~= t);
        lemma_index_of_concat(t, Seq::<char>::empty(), '\r');
        assert(t + Seq::<char>::empty() =~= t);
        assert(t.take(t.len() as int) =~= t);
    }
    assert(!pad.contains('|')) by {
        if pad.contains('|') {
            let i = choose|i: int| 0 <= i < pad.len() && pad[i] == '|';
            assert(crate::text::is_ascii_alnum(pad[i]));
        }
    }
    lemma_index_of_concat(pad, Seq::<char>::empty(), '|');
    assert(pad + Seq::<char>::empty() =~= pad);
}

pub open spec fn is_ascii_alnum_all(s: Seq<char>) -> bool {
    forall|i: int| 0 <= i < s.len() ==> crate::text::is_ascii_alnum(#[trigger] s[i])
}

/// Encrypting a message under a key and parsing the frame with the same key
/// gives the message back, with its token marked by `*`; the random padding
/// is stripped. Data, when present, must be non-empty (empty data is sent
/// like no data and read back as none), and no field may hold the delimiter
/// that ends it.
pub proof fn lemma_encrypted_round_trip(m: MessageModel, key: Seq<char>, f: Seq<char>)
    requires
        encrypted_frameable(m),
        valid_key_len(encode_utf8(key).len()),
        is_encrypted_frame_of(m, encode_utf8(key), f),
    ensures
        parse_spec(f, Some(key)) == Ok::<MessageModel, crate::parser::DC09Error>(
            MessageModel { token: encrypted_token(m.token), ..m },
        ),
{
    let kb = encode_utf8(key);
    let plain = plain_payload(m);
    let pad = choose|pad: Seq<char>|
        is_padding_for(pad, plain) && cipher_round_trips(kb, pad + plain) && f == encrypted_frame(
            m,
            kb,
            pad,
        );
    let padded = pad + plain;
    let bytes = encode_utf8(padded);
    let ct = cbc_encrypt(kb, bytes);
    let hex = encrypted_text(kb, padded);
    assert(hex == hex_upper(ct));
    lemma_hex_upper_ascii(ct);
    // lengths
    assert(is_ascii_chars(pad)) by {
        assert forall|i: int| 0 <= i < pad.len() implies '\0' <= #[trigger] pad[i] <= '\u{7f}' by {
            assert(crate::text::is_ascii_alnum(pad[i]));
        }
    }
    crate::text::lemma_encode_utf8_ascii(pad);
    lemma_encode_utf8_concat(pad, plain);
    let n = encode_utf8(plain).len();
    assert((pad_len(n) + n) % 16 == 0) by (nonlinear_arith);
    assert(bytes.len() % 16 == 0);
    assert(pad.len() <= 16);
    let tail = seq!['['] + hex;
    let body = encrypted_body(m, hex);
    assert(body == header_text(encrypted_token(m.token), m) + tail);
    crate::text::lemma_encode_utf8_ascii(hex);
    crate::text::lemma_encode_utf8_ascii(seq!['[']);
    lemma_encode_utf8_concat(seq!['['], hex);
    lemma_encode_utf8_concat(header_text(encrypted_token(m.token), m), tail);
    assert(encode_utf8(body).len() <= 0xFFFF);
    assert(!is_account_char(tail[0]));
    lemma_header_of_frame(encrypted_token(m.token), m, tail);
    lemma_checks_of_frame(body);
    let h = parse_header(f)->0;
    assert(starred(h.token));
    assert(h.rest =~= seq!['['] + hex + seq!['\r']);
    assert(h.rest.subrange(1, h.rest.len() - 1) =~= hex);
    // decryption
    assert(hex_decode(encode_utf8(hex)) == Some(ct));
    assert(cbc_decrypt(kb, ct) == bytes);
    encode_utf8_valid_utf8(padded);
    encode_utf8_decode_utf8(padded);
    assert(decrypt_spec(hex, kb) == Some(padded));
    if has_data(m) {
        lemma_padded_payload_with_data(m, pad);
    } else {
        lemma_padded_payload_without_data(m, pad);
    }
    let p = parse_payload(padded)->0;
    let r = crate::parser::message_of(h, p, true);
    assert(r == MessageModel { token: encrypted_token(m.token), ..m });
}

proof fn lemma_hex_value4(s: Seq<char>)
    requires
        s.len() == 4,
        all_hex(s),
    ensures
        hex_value(s) == hex_char_value(s[0]) * 4096 + hex_char_value(s[1]) * 256 + hex_char_value(
            s[2],
        ) * 16 + hex_char_value(s[3]),
        forall|k: int| 0 <= k < 4 ==> hex_char_value(#[trigger] s[k]) < 16,
{
    let s3 = s.drop_last();
    let s2 = s3.drop_last();
    let s1 = s2.drop_last();
    assert(s1.drop_last() =~= Seq::<char>::empty());
    assert(hex_value(s1.drop_last()) == 0);
    assert(hex_value(s1) == hex_char_value(s[0]));
    assert(hex_value(s2) == hex_value(s1) * 16 + hex_char_value(s[1]));
    assert(hex_value(s3) == hex_value(s2) * 16 + hex_char_value(s[2]));
    assert(hex_value(s) == hex_value(s3) * 16 + hex_char_value(s[3]));
    assert forall|k: int| 0 <= k < 4 implies hex_char_value(#[trigger] s[k]) < 16 by {
        assert(is_hex_char(s[k]));
    }
}

/// Replacing one digit of an accepted frame's CRC field by a hex digit of
/// another value makes the parser fail with `InvalidCrc`.
pub proof fn lemma_crc_digit_change(f: Seq<char>, key: Option<Seq<char>>, i: int, c: char)
    requires
        parse_spec(f, key) is Ok,
        1 <= i < 5,
        is_hex_char(c),
        hex_char_value(c) != hex_char_value(f[i]),
    ensures
        parse_spec(f.update(i, c), key) == Err::<MessageModel, crate::parser::DC09Error>(
            crate::parser::DC09Error::InvalidCrc,
        ),
{
    let g = f.update(i, c);
    let h = parse_header(f)->0;
    assert(g.skip(10) =~= f.skip(10));
    assert(g.subrange(5, 9) =~= f.subrange(5, 9));
    assert(all_hex(g.subrange(1, 9))) by {
        assert forall|k: int| 0 <= k < 8 implies is_hex_char(#[trigger] g.subrange(1, 9)[k]) by {
            if k + 1 != i {
                assert(g.subrange(1, 9)[k] == f.subrange(1, 9)[k]);
            }
        }
    }
    let hg = parse_header(g)->0;
    assert(parse_header(g) is Some);
    assert(hg.len == h.len);
    assert(hg.token == h.token && hg.rest == h.rest);
    // the declared CRC changes
    let a = f.subrange(1, 5);
    let b = g.subrange(1, 5);
    assert(all_hex(a)) by {
        assert forall|k: int| 0 <= k < 4 implies is_hex_char(#[trigger] a[k]) by {
            assert(a[k] == f.subrange(1, 9)[k]);
        }
    }
    assert(all_hex(b)) by {
        assert forall|k: int| 0 <= k < 4 implies is_hex_char(#[trigger] b[k]) by {
            assert(b[k] == g.subrange(1, 9)[k]);
        }
    }
    lemma_hex_value4(a);
    lemma_hex_value4(b);
    assert(forall|k: int| 0 <= k < 4 && k != i - 1 ==> a[k] == b[k]);
    assert(b[i - 1] == c && a[i - 1] == f[i]);
    assert(hex_value(a) != hex_value(b));
    // the body bytes stay the same
    let pf = f.take(9);
    let pg = g.take(9);
    assert(f =~= pf + f.skip(9));
    assert(g =~= pg + f.skip(9));
    assert(is_ascii_chars(pf) && is_ascii_chars(pg)) by {
        assert forall|k: int| 0 <= k < 9 implies '\0' <= #[trigger] pf[k] <= '\u{7f}' && '\0' <= pg[k]
            <= '\u{7f}' by {
            if k > 0 {
                assert(pf[k] == f.subrange(1, 9)[k - 1]);
                assert(pg[k] == g.subrange(1, 9)[k - 1]);
            }
        }
    }
    crate::text::lemma_encode_utf8_ascii(pf);
    crate::text::lemma_encode_utf8_ascii(pg);
    lemma_encode_utf8_concat(pf, f.skip(9));
    lemma_encode_utf8_concat(pg, f.skip(9));
    let ef = encode_utf8(f);
    let eg = encode_utf8(g);
    assert(eg.len() == ef.len());
    assert(eg.subrange(9, (9 + h.len) as int) =~= ef.subrange(9, (9 + h.len) as int));
}

/// A frame whose header still parses and declares the length of an accepted
/// frame, but whose bytes are more or fewer, fails with `InvalidLength`: the
/// length is checked before the CRC.
pub proof fn lemma_length_change(f: Seq<char>, g: Seq<char>, key: Option<Seq<char>>)
    requires
        parse_spec(f, key) is Ok,
        parse_header(g) is Some,
        parse_header(g)->0.len == parse_header(f)->0.len,
        encode_utf8(g).len() != encode_utf8(f).len(),
    ensures
        parse_spec(g, key) == Err::<MessageModel, crate::parser::DC09Error>(
            crate::parser::DC09Error::InvalidLength,
        ),
{
}

} // verus!
