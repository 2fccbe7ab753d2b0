//! What makes no difference to the lines that are kept of a text: blank lines,
//! white space around lines, carriage returns before line feeds.

use vstd::prelude::*;
use vstd::utf8::{
    decode_utf8, decode_utf8_encode_utf8, encode_scalar, encode_utf8, encode_utf8_decode_utf8,
    encode_utf8_valid_utf8, has_width_1_encoding, last_continuation_byte, leading_byte_width_1,
    leading_byte_width_2, leading_byte_width_3, leading_byte_width_4,
    second_last_continuation_byte, third_last_continuation_byte, valid_utf8,
};

use crate::split::{
    joined, law_joined_of_split, law_split_of_joined, lemma_marked_concat, lemma_marked_nowhere,
    lemma_marked_one, lemma_split_extend, lemma_split_some, marked, split,
};
use crate::text::{
    decoded, is_white_space, lemma_not_blank_push, lines, non_blank, not_blank, trim_end,
    trim_start, trimmed,
};

verus! {

/// Whether there is nothing but white space in a text.
pub open spec fn is_all_white(text: Seq<char>) -> bool {
    forall|i: int| 0 <= i < text.len() ==> is_white_space(#[trigger] text[i])
}

/// Whether a line is another one between white space.
pub open spec fn is_padded(line: Seq<char>, padded: Seq<char>) -> bool {
    exists|before: Seq<char>, after: Seq<char>|
        is_all_white(before) && is_all_white(after) && padded == #[trigger] ((before + line) + after)
}

/// Whether lines are others with noise: each between white space, and blank
/// lines anywhere among them.
pub open spec fn is_noisy(plain: Seq<Seq<char>>, noisy: Seq<Seq<char>>) -> bool
    decreases noisy.len(),
{
    if noisy.len() == 0 {
        plain.len() == 0
    } else {
        ||| is_all_white(noisy.last()) && is_noisy(plain, noisy.drop_last())
        ||| plain.len() > 0 && is_padded(plain.last(), noisy.last()) && is_noisy(
            plain.drop_last(),
            noisy.drop_last(),
        )
    }
}

/// White space before a text is trimmed.
proof fn lemma_trim_start_padded(before: Seq<char>, text: Seq<char>)
    requires
        is_all_white(before),
    ensures
        trim_start(before + text) == trim_start(text),
    decreases before.len(),
{
    if before.len() == 0 {
        assert(before + text =~= text);
    } else {
        assert(is_white_space((before + text)[0]));
        assert((before + text).drop_first() =~= before.drop_first() + text);
        assert forall|i: int| 0 <= i < before.drop_first().len() implies is_white_space(
            #[trigger] before.drop_first()[i],
        ) by {
            assert(before.drop_first()[i] == before[i + 1]);
        }
        lemma_trim_start_padded(before.drop_first(), text);
    }
}

/// White space after a text is trimmed.
proof fn lemma_trim_end_padded(text: Seq<char>, after: Seq<char>)
    requires
        is_all_white(after),
    ensures
        trim_end(text + after) == trim_end(text),
    decreases after.len(),
{
    if after.len() == 0 {
        assert(text + after =~= text);
    } else {
        assert(is_white_space((text + after).last()));
        assert((text + after).drop_last() =~= text + after.drop_last());
        assert forall|i: int| 0 <= i < after.drop_last().len() implies is_white_space(
            #[trigger] after.drop_last()[i],
        ) by {
            assert(after.drop_last()[i] == after[i]);
        }
        lemma_trim_end_padded(text, after.drop_last());
    }
}

/// What is left at the end by trimming the start stays there, unless nothing is
/// left.
proof fn lemma_trim_start_before(text: Seq<char>, after: Seq<char>)
    ensures
        trim_start(text).len() > 0 ==> trim_start(text + after) == trim_start(text) + after,
        trim_start(text).len() == 0 ==> trim_start(text + after) == trim_start(after),
    decreases text.len(),
{
    if text.len() == 0 {
        assert(text + after =~= after);
    } else if is_white_space(text[0]) {
        assert((text + after).drop_first() =~= text.drop_first() + after);
        lemma_trim_start_before(text.drop_first(), after);
    }
}

/// Nothing is left of white space.
proof fn lemma_trimmed_white(text: Seq<char>)
    requires
        is_all_white(text),
    ensures
        trim_start(text) == Seq::<char>::empty(),
        trimmed(text) == Seq::<char>::empty(),
{
    assert(text + Seq::<char>::empty() =~= text);
    lemma_trim_start_padded(text, Seq::empty());
}

/// White space around a text is trimmed.
pub proof fn law_padding_is_trimmed(line: Seq<char>, padded: Seq<char>)
    requires
        is_padded(line, padded),
    ensures
        trimmed(padded) == trimmed(line),
{
    let (before, after) = choose|before: Seq<char>, after: Seq<char>|
        is_all_white(before) && is_all_white(after) && padded == #[trigger] ((before + line) + after);
    assert((before + line) + after =~= before + (line + after));
    lemma_trim_start_padded(before, line + after);
    lemma_trim_start_before(line, after);
    if trim_start(line).len() > 0 {
        lemma_trim_end_padded(trim_start(line), after);
    } else {
        lemma_trimmed_white(after);
        assert(trim_start(line) =~= Seq::empty());
    }
}

/// Of lines with noise the same lines are kept as without.
proof fn lemma_noise_is_dropped(plain: Seq<Seq<char>>, noisy: Seq<Seq<char>>)
    requires
        is_noisy(plain, noisy),
    ensures
        not_blank(noisy) == not_blank(plain),
    decreases noisy.len(),
{
    if noisy.len() == 0 {
        assert(plain =~= noisy);
    } else {
        let line = noisy.last();
        assert(noisy =~= noisy.drop_last().push(line));
        lemma_not_blank_push(noisy.drop_last(), line);
        if is_all_white(line) && is_noisy(plain, noisy.drop_last()) {
            lemma_noise_is_dropped(plain, noisy.drop_last());
            lemma_trimmed_white(line);
        } else {
            lemma_noise_is_dropped(plain.drop_last(), noisy.drop_last());
            assert(plain =~= plain.drop_last().push(plain.last()));
            lemma_not_blank_push(plain.drop_last(), plain.last());
            law_padding_is_trimmed(plain.last(), line);
        }
    }
}

/// Blank lines, and white space at the start and the end of lines, make no
/// difference to which lines are kept.
pub proof fn law_line_noise_is_dropped(plain: Seq<char>, noisy: Seq<char>)
    requires
        is_noisy(lines(plain), lines(noisy)),
    ensures
        non_blank(noisy) == non_blank(plain),
{
    lemma_noise_is_dropped(lines(plain), lines(noisy));
}

/// The lines of a text whose line feeds follow carriage returns: but for the
/// last, each has a carriage return at its end.
proof fn lemma_carriage_returns(text: Seq<char>)
    ensures
        ({
            let plain = lines(text);
            let noisy = lines(marked(text, '\n', '\r'));
            &&& plain.len() > 0
            &&& noisy.len() > 0
            &&& noisy.last() == plain.last()
            &&& is_noisy(plain.drop_last(), noisy.drop_last())
        }),
    decreases text.len(),
{
    let plain = lines(text);
    let noisy = lines(marked(text, '\n', '\r'));
    if text.len() == 0 {
        assert(plain.drop_last() =~= Seq::empty());
        assert(noisy.drop_last() =~= Seq::empty());
    } else {
        let front = text.drop_last();
        let c = text.last();
        let out = marked(front, '\n', '\r');
        lemma_carriage_returns(front);
        let plain_before = lines(front);
        let noisy_before = lines(out);
        if c == '\n' {
            assert(out.push('\r').push('\n').drop_last() =~= out.push('\r'));
            assert(out.push('\r').drop_last() =~= out);
            let ended = noisy_before.drop_last().push(noisy_before.last().push('\r'));
            assert(lines(out.push('\r')) == ended);
            assert(noisy.drop_last() =~= ended);
            assert(plain.drop_last() =~= plain_before);
            assert(ended.drop_last() =~= noisy_before.drop_last());
            let none = Seq::<char>::empty();
            let line = plain_before.last();
            assert(noisy_before.last().push('\r') =~= (none + line) + seq!['\r']);
            assert(is_padded(line, ended.last()));
        } else {
            assert(out.push(c).drop_last() =~= out);
            assert(noisy.drop_last() =~= noisy_before.drop_last());
            assert(plain.drop_last() =~= plain_before.drop_last());
        }
    }
}

/// Carriage returns before line feeds make no difference to which lines are
/// kept: they are noise.
pub proof fn law_carriage_returns_are_dropped(text: Seq<char>)
    ensures
        is_noisy(lines(text), lines(marked(text, '\n', '\r'))),
        non_blank(marked(text, '\n', '\r')) == non_blank(text),
{
    lemma_carriage_returns(text);
    let plain = lines(text);
    let noisy = lines(marked(text, '\n', '\r'));
    let none = Seq::<char>::empty();
    assert(noisy.last() =~= (none + plain.last()) + none);
    assert(is_padded(plain.last(), noisy.last()));
    law_line_noise_is_dropped(text, marked(text, '\n', '\r'));
}

/// The byte of a line feed stands for a line feed alone.
proof fn lemma_line_feed_byte(c: char)
    ensures
        c == '\n' ==> encode_scalar(c as u32) == seq![0x0au8],
        c == '\r' ==> encode_scalar(c as u32) == seq![0x0du8],
        c != '\n' ==> !encode_scalar(c as u32).contains(0x0a),
{
    let v = c as u32;
    assert(v == 0x0a ==> leading_byte_width_1(v) == 0x0a) by (bit_vector);
    assert(v == 0x0d ==> leading_byte_width_1(v) == 0x0d) by (bit_vector);
    assert(has_width_1_encoding(v) && v != 0x0a ==> leading_byte_width_1(v) != 0x0a) by (bit_vector);
    assert(leading_byte_width_2(v) >= 0x80) by (bit_vector);
    assert(leading_byte_width_3(v) >= 0x80) by (bit_vector);
    assert(leading_byte_width_4(v) >= 0x80) by (bit_vector);
    assert(last_continuation_byte(v) >= 0x80) by (bit_vector);
    assert(second_last_continuation_byte(v) >= 0x80) by (bit_vector);
    assert(third_last_continuation_byte(v) >= 0x80) by (bit_vector);
}

/// To put carriage returns before the line feeds of a text is to put their bytes
/// before those of the line feeds.
proof fn lemma_encode_marked(text: Seq<char>)
    ensures
        encode_utf8(marked(text, '\n', '\r')) == marked(encode_utf8(text), 0x0a, 0x0d),
    decreases text.len(),
{
    if text.len() > 0 {
        let c = text[0];
        let rest = text.drop_first();
        lemma_encode_marked(rest);
        lemma_line_feed_byte(c);
        lemma_line_feed_byte('\r');
        lemma_marked_concat(encode_scalar(c as u32), encode_utf8(rest), 0x0a, 0x0d);
        lemma_marked_concat(seq![c], rest, '\n', '\r');
        assert(seq![c] + rest =~= text);
        lemma_marked_one(c, '\n', '\r');
        let tail = marked(rest, '\n', '\r');
        if c == '\n' {
            lemma_marked_one(0x0au8, 0x0a, 0x0d);
            let out = seq!['\r', '\n'] + tail;
            assert(out.drop_first() =~= seq!['\n'] + tail);
            assert(out.drop_first().drop_first() =~= tail);
            assert(encode_utf8(out) =~= seq![0x0du8, 0x0au8] + encode_utf8(tail)) by {
                reveal_with_fuel(encode_utf8, 3);
            }
        } else {
            lemma_marked_nowhere(encode_scalar(c as u32), 0x0a, 0x0d);
            let out = seq![c] + tail;
            assert(out.drop_first() =~= tail);
        }
    }
}

/// Bytes that are text, with carriage returns put before the line feeds, are
/// that text with carriage returns put before the line feeds.
pub proof fn law_carriage_returns_in_bytes(bytes: Seq<u8>)
    requires
        valid_utf8(bytes),
    ensures
        decoded(marked(bytes, 0x0a, 0x0d)) == marked(decoded(bytes), '\n', '\r'),
{
    let text = decode_utf8(bytes);
    decode_utf8_encode_utf8(bytes);
    lemma_encode_marked(text);
    encode_utf8_valid_utf8(marked(text, '\n', '\r'));
    encode_utf8_decode_utf8(marked(text, '\n', '\r'));
}

/// What each of a list of texts is encoded as.
pub open spec fn encoded(list: Seq<Seq<char>>) -> Seq<Seq<u8>> {
    list.map_values(|text: Seq<char>| encode_utf8(text))
}

/// Whether bytes are a text with nothing but white space in it.
pub open spec fn is_white_bytes(bytes: Seq<u8>) -> bool {
    valid_utf8(bytes) && is_all_white(decode_utf8(bytes))
}

/// Whether the bytes of a line are those of another one between white space.
pub open spec fn is_padded_bytes(line: Seq<u8>, padded: Seq<u8>) -> bool {
    exists|before: Seq<u8>, after: Seq<u8>|
        is_white_bytes(before) && is_white_bytes(after) && padded == #[trigger] ((before + line)
            + after)
}

/// Whether lines, in bytes, are others with noise: each between white space,
/// and blank lines anywhere among them.
pub open spec fn is_noisy_bytes(plain: Seq<Seq<u8>>, noisy: Seq<Seq<u8>>) -> bool
    decreases noisy.len(),
{
    if noisy.len() == 0 {
        plain.len() == 0
    } else {
        ||| is_white_bytes(noisy.last()) && is_noisy_bytes(plain, noisy.drop_last())
        ||| plain.len() > 0 && is_padded_bytes(plain.last(), noisy.last()) && is_noisy_bytes(
            plain.drop_last(),
            noisy.drop_last(),
        )
    }
}

/// Two texts are encoded one after the other.
proof fn lemma_encode_concat(a: Seq<char>, b: Seq<char>)
    ensures
        encode_utf8(a + b) == encode_utf8(a) + encode_utf8(b),
    decreases a.len(),
{
    if a.len() == 0 {
        assert(a + b =~= b);
        assert(encode_utf8(a) + encode_utf8(b) =~= encode_utf8(b));
    } else {
        lemma_encode_concat(a.drop_first(), b);
        assert((a + b).drop_first() =~= a.drop_first() + b);
        assert(encode_utf8(a + b) =~= encode_utf8(a) + encode_utf8(b));
    }
}

/// The encoding of one character.
proof fn lemma_encode_one(c: char)
    ensures
        encode_utf8(seq![c]) == encode_scalar(c as u32),
{
    let none = Seq::<char>::empty();
    assert(seq![c].drop_first() =~= none);
    assert(encode_utf8(none) =~= Seq::empty());
    assert(encode_utf8(seq![c]) =~= encode_scalar(c as u32));
}

/// The byte of a line feed is in the encoding of no text without one.
proof fn lemma_encode_contains(text: Seq<char>)
    ensures
        text.contains('\n') ==> encode_utf8(text).contains(0x0a),
    decreases text.len(),
{
    if text.contains('\n') {
        let c = text[0];
        let rest = text.drop_first();
        lemma_line_feed_byte(c);
        lemma_encode_contains(rest);
        let head = encode_scalar(c as u32);
        let tail = encode_utf8(rest);
        if c == '\n' {
            assert((head + tail)[0] == 0x0a);
        } else {
            let i = choose|i: int| 0 <= i < text.len() && text[i] == '\n';
            assert(rest[i - 1] == '\n');
            let k = choose|k: int| 0 <= k < tail.len() && tail[k] == 0x0a;
            assert((head + tail)[head.len() + k] == 0x0a);
        }
    }
}

/// The bytes of a text, split at the bytes of line feeds, are its lines.
proof fn lemma_lines_in_bytes(text: Seq<char>)
    ensures
        split(encode_utf8(text), 0x0a) == encoded(lines(text)),
    decreases text.len(),
{
    lemma_split_some(text, '\n');
    if text.len() == 0 {
        assert(split(encode_utf8(text), 0x0au8) =~= encoded(lines(text)));
    } else {
        let front = text.drop_last();
        let c = text.last();
        lemma_lines_in_bytes(front);
        lemma_split_some(front, '\n');
        assert(text =~= front + seq![c]);
        lemma_encode_concat(front, seq![c]);
        lemma_encode_one(c);
        lemma_line_feed_byte(c);
        let bytes = encode_utf8(front);
        let before = lines(front);
        if c == '\n' {
            let whole = bytes + seq![0x0au8];
            assert(whole.drop_last() =~= bytes);
            assert(whole.last() == 0x0a);
            assert(encode_utf8(Seq::<char>::empty()) =~= Seq::empty());
            assert(split(whole, 0x0a) =~= encoded(lines(text)));
        } else {
            let more = encode_scalar(c as u32);
            lemma_split_extend(bytes, more, 0x0a);
            assert(before.last().push(c) =~= before.last() + seq![c]);
            lemma_encode_concat(before.last(), seq![c]);
            assert(split(encode_utf8(text), 0x0a) =~= encoded(lines(text)));
        }
    }
}

/// Lines are encoded one after the other, with line feeds between them.
proof fn lemma_encode_joined(list: Seq<Seq<char>>)
    ensures
        encode_utf8(joined(list, '\n')) == joined(encoded(list), 0x0a),
    decreases list.len(),
{
    if list.len() == 0 {
        assert(encode_utf8(Seq::<char>::empty()) =~= Seq::empty());
    } else if list.len() > 1 {
        let front = joined(list.drop_last(), '\n');
        lemma_encode_joined(list.drop_last());
        assert(encoded(list).drop_last() =~= encoded(list.drop_last()));
        lemma_encode_concat(front.push('\n'), list.last());
        assert(front.push('\n') =~= front + seq!['\n']);
        lemma_encode_concat(front, seq!['\n']);
        lemma_encode_one('\n');
        lemma_line_feed_byte('\n');
        assert(encode_utf8(front) + seq![0x0au8] =~= encode_utf8(front).push(0x0a));
    }
}

/// Lines that are text stay so with noise in their bytes, and it is noise in the
/// text.
proof fn lemma_noise_is_text(plain: Seq<Seq<char>>, noisy: Seq<Seq<u8>>) -> (text: Seq<Seq<char>>)
    requires
        is_noisy_bytes(encoded(plain), noisy),
    ensures
        encoded(text) == noisy,
        is_noisy(plain, text),
    decreases noisy.len(),
{
    if noisy.len() == 0 {
        assert(encoded(plain) =~= noisy);
        plain
    } else {
        let line = noisy.last();
        assert(noisy =~= noisy.drop_last().push(line));
        if is_white_bytes(line) && is_noisy_bytes(encoded(plain), noisy.drop_last()) {
            let front = lemma_noise_is_text(plain, noisy.drop_last());
            let text = front.push(decode_utf8(line));
            decode_utf8_encode_utf8(line);
            assert(encoded(text) =~= noisy);
            assert(text.drop_last() =~= front);
            text
        } else {
            assert(encoded(plain).drop_last() =~= encoded(plain.drop_last()));
            let front = lemma_noise_is_text(plain.drop_last(), noisy.drop_last());
            let (before, after) = choose|before: Seq<u8>, after: Seq<u8>|
                is_white_bytes(before) && is_white_bytes(after) && line == #[trigger] ((before
                    + encoded(plain).last()) + after);
            let start = decode_utf8(before);
            let end = decode_utf8(after);
            decode_utf8_encode_utf8(before);
            decode_utf8_encode_utf8(after);
            let last = (start + plain.last()) + end;
            lemma_encode_concat(start, plain.last());
            lemma_encode_concat(start + plain.last(), end);
            let text = front.push(last);
            assert(encode_utf8(last) == line);
            assert(encoded(text) =~= noisy);
            assert(text.drop_last() =~= front);
            assert(is_padded(plain.last(), last));
            text
        }
    }
}

/// Bytes that are text stay so with noise in their lines, and it is noise in the
/// lines of the text.
pub proof fn law_line_noise_in_bytes(plain: Seq<u8>, noisy: Seq<u8>)
    requires
        valid_utf8(plain),
        is_noisy_bytes(split(plain, 0x0a), split(noisy, 0x0a)),
    ensures
        valid_utf8(noisy),
        is_noisy(lines(decoded(plain)), lines(decoded(noisy))),
{
    let text = decode_utf8(plain);
    decode_utf8_encode_utf8(plain);
    lemma_lines_in_bytes(text);
    let pieces = split(noisy, 0x0au8);
    let with_noise = lemma_noise_is_text(lines(text), pieces);
    law_joined_of_split(noisy, 0x0au8);
    lemma_encode_joined(with_noise);
    let whole = joined(with_noise, '\n');
    encode_utf8_valid_utf8(whole);
    encode_utf8_decode_utf8(whole);
    lemma_split_some(noisy, 0x0au8);
    assert(with_noise.len() == pieces.len()) by {
        assert(encoded(with_noise).len() == with_noise.len());
    }
    assert forall|i: int| 0 <= i < with_noise.len() implies !(
    #[trigger] with_noise[i]).contains('\n') by {
        lemma_encode_contains(with_noise[i]);
        assert(pieces[i] == encode_utf8(with_noise[i]));
    }
    law_split_of_joined(with_noise, '\n');
}

} // verus!
