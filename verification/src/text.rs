//! Text out of bytes, and the lines of a text.

use vstd::prelude::*;
use vstd::string::StringExecFns;
use vstd::utf8::{
    decode_utf8, decode_utf8_encode_utf8, encode_utf8, encode_utf8_decode_utf8,
    encode_utf8_valid_utf8, valid_utf8,
};

use crate::split::{joined, law_joined_of_split, law_split_of_joined, split};

verus! {

/// The text that `String::from_utf8_lossy` makes of bytes.
pub uninterp spec fn lossy_text(bytes: Seq<u8>) -> Seq<char>;

/// `String::from_utf8_lossy`: the text of the bytes where they are valid UTF-8;
/// else a text in which replacement characters stand for what is not. How many
/// of them stand for a stretch of invalid bytes is left unsaid.
#[verifier::external_body]
fn decode_lossy(bytes: &[u8]) -> (text: String)
    ensures
        text@ == lossy_text(bytes@),
        valid_utf8(bytes@) ==> text@ == decode_utf8(bytes@),
        !valid_utf8(bytes@) ==> text@.contains('\u{FFFD}'),
{
    String::from_utf8_lossy(bytes).into_owned()
}

/// The text of bytes: what they are the encoding of, where they are valid
/// UTF-8, and else what is made of them.
pub open spec fn decoded(bytes: Seq<u8>) -> Seq<char> {
    if valid_utf8(bytes) {
        decode_utf8(bytes)
    } else {
        lossy_text(bytes)
    }
}

/// Makes text of bytes, with replacement characters for what is not valid UTF-8.
pub fn decode(bytes: &[u8]) -> (text: String)
    ensures
        text@ == decoded(bytes@),
        !valid_utf8(bytes@) ==> text@.contains('\u{FFFD}'),
{
    decode_lossy(bytes)
}

/// `String::push` appends one character.
pub assume_specification[ String::push ](text: &mut String, c: char)
    ensures
        final(text)@ == old(text)@.push(c),
;

/// The characters with the Unicode property `White_Space`.
pub open spec fn is_white_space(c: char) -> bool {
    ||| 0x9 <= c as u32 <= 0xd
    ||| c as u32 == 0x20
    ||| c as u32 == 0x85
    ||| c as u32 == 0xa0
    ||| c as u32 == 0x1680
    ||| 0x2000 <= c as u32 <= 0x200a
    ||| c as u32 == 0x2028
    ||| c as u32 == 0x2029
    ||| c as u32 == 0x202f
    ||| c as u32 == 0x205f
    ||| c as u32 == 0x3000
}

/// A text without the white space that it begins with.
pub open spec fn trim_start(text: Seq<char>) -> Seq<char>
    decreases text.len(),
{
    if text.len() > 0 && is_white_space(text[0]) {
        trim_start(text.drop_first())
    } else {
        text
    }
}

/// A text without the white space that it ends in.
pub open spec fn trim_end(text: Seq<char>) -> Seq<char>
    decreases text.len(),
{
    if text.len() > 0 && is_white_space(text.last()) {
        trim_end(text.drop_last())
    } else {
        text
    }
}

/// A text without the white space around it.
pub open spec fn trimmed(text: Seq<char>) -> Seq<char> {
    trim_end(trim_start(text))
}

/// `str::trim` removes leading and trailing white space, as Unicode's
/// `White_Space` has it, and nothing else.
pub assume_specification[ str::trim ](text: &str) -> (rest: &str)
    ensures
        rest@ == trimmed(text@),
;

/// What each of a list of texts holds.
pub open spec fn texts(list: Seq<String>) -> Seq<Seq<char>> {
    list.map_values(|text: String| text@)
}

/// The lines of a text: the stretches between its line feeds.
pub open spec fn lines(text: Seq<char>) -> Seq<Seq<char>> {
    split(text, '\n')
}

/// The lines among those given that are not blank, without the white space
/// around them.
pub open spec fn not_blank(lines: Seq<Seq<char>>) -> Seq<Seq<char>> {
    lines.map_values(|line: Seq<char>| trimmed(line)).filter(|line: Seq<char>| line.len() > 0)
}

/// The lines of a text that are not blank, without the white space around them.
pub open spec fn non_blank(text: Seq<char>) -> Seq<Seq<char>> {
    not_blank(lines(text))
}

/// One more line counts where it is not blank.
pub proof fn lemma_not_blank_push(lines: Seq<Seq<char>>, line: Seq<char>)
    ensures
        not_blank(lines.push(line)) == if trimmed(line).len() > 0 {
            not_blank(lines).push(trimmed(line))
        } else {
            not_blank(lines)
        },
{
    let trim = |line: Seq<char>| trimmed(line);
    let keep = |line: Seq<char>| line.len() > 0;
    assert(lines.push(line).map_values(trim) =~= lines.map_values(trim).push(trimmed(line)));
    lines.map_values(trim).lemma_filter_push(trimmed(line), keep);
}

/// Adds a line to a list, trimmed, where it is not blank.
fn keep_line(list: &mut Vec<String>, line: &str)
    ensures
        texts(final(list)@) == if trimmed(line@).len() > 0 {
            texts(old(list)@).push(trimmed(line@))
        } else {
            texts(old(list)@)
        },
{
    let line = line.trim();
    if !line.is_empty() {
        list.push(line.to_owned());
        assert(texts(list@) =~= texts(old(list)@).push(line@));
    }
}

/// The lines of a text that are not blank, without the white space around them.
pub fn non_blank_lines(text: &str) -> (list: Vec<String>)
    ensures
        texts(list@) == non_blank(text@),
{
    let mut list: Vec<String> = Vec::new();
    let mut line = String::new();
    let ghost mut seen: Seq<char> = Seq::empty();
    assert(lines(seen).drop_last() =~= Seq::empty());
    assert(texts(list@) =~= not_blank(lines(seen).drop_last()));
    for c in iter: text.chars()
        invariant
            seen == text@.take(iter.index() as int),
            iter.seq() == text@,
            line@ == lines(seen).last(),
            lines(seen).len() > 0,
            texts(list@) == not_blank(lines(seen).drop_last()),
    {
        let ghost so_far = seen;
        proof {
            seen = seen.push(c);
            assert(seen.drop_last() =~= so_far);
            assert(lines(so_far) =~= lines(so_far).drop_last().push(lines(so_far).last()));
            lemma_not_blank_push(lines(so_far).drop_last(), lines(so_far).last());
        }
        if c == '\n' {
            keep_line(&mut list, line.as_str());
            line = String::new();
            assert(lines(seen).drop_last() =~= lines(so_far));
        } else {
            line.push(c);
            assert(lines(seen).drop_last() =~= lines(so_far).drop_last());
        }
        assert(seen =~= text@.take(iter.index() + 1));
    }
    proof {
        assert(seen =~= text@);
        assert(lines(seen) =~= lines(seen).drop_last().push(lines(seen).last()));
        lemma_not_blank_push(lines(seen).drop_last(), lines(seen).last());
    }
    keep_line(&mut list, line.as_str());
    list
}

/// Puts lines together, with a line feed between each two.
pub fn join_lines(list: &Vec<String>) -> (text: String)
    ensures
        text@ == joined(texts(list@), '\n'),
{
    let mut text = String::new();
    let ghost all = texts(list@);
    for i in 0..list.len()
        invariant
            all == texts(list@),
            text@ == joined(all.take(i as int), '\n'),
    {
        assert(all.take(i + 1).drop_last() =~= all.take(i as int));
        if i > 0 {
            text.push('\n');
        }
        text.append(list[i].as_str());
        assert(text@ =~= joined(all.take(i + 1), '\n'));
    }
    assert(all.take(list@.len() as int) =~= all);
    text
}

/// Trimming at the start leaves a text that begins with no white space, and is
/// a part of what there was.
proof fn lemma_trim_start(text: Seq<char>)
    ensures
        trim_start(text).is_suffix_of(text),
        trim_start(text).len() > 0 ==> !is_white_space(trim_start(text)[0]),
    decreases text.len(),
{
    if text.len() > 0 && is_white_space(text[0]) {
        lemma_trim_start(text.drop_first());
        let rest = trim_start(text);
        assert(rest =~= text.subrange(text.len() - rest.len(), text.len() as int));
    } else {
        assert(text =~= text.subrange(0, text.len() as int));
    }
}

/// Trimming at the end leaves a text that ends in no white space, and is a part
/// of what there was.
proof fn lemma_trim_end(text: Seq<char>)
    ensures
        trim_end(text).is_prefix_of(text),
        trim_end(text).len() > 0 ==> !is_white_space(trim_end(text).last()),
    decreases text.len(),
{
    if text.len() > 0 && is_white_space(text.last()) {
        lemma_trim_end(text.drop_last());
        let rest = trim_end(text);
        assert(rest =~= text.subrange(0, rest.len() as int));
    } else {
        assert(text =~= text.subrange(0, text.len() as int));
    }
}

/// A trimmed text neither begins nor ends with white space, and trimming it
/// again changes nothing.
pub proof fn law_trimmed(text: Seq<char>)
    ensures
        trimmed(text).len() > 0 ==> !is_white_space(trimmed(text)[0]) && !is_white_space(
            trimmed(text).last(),
        ),
        trimmed(trimmed(text)) == trimmed(text),
{
    lemma_trim_start(text);
    lemma_trim_end(trim_start(text));
    if trimmed(text).len() > 0 {
        assert(trimmed(text)[0] == trim_start(text)[0]);
    }
}

/// A character of a trimmed text is one of the text.
proof fn lemma_trimmed_contains(text: Seq<char>, c: char)
    requires
        trimmed(text).contains(c),
    ensures
        text.contains(c),
{
    lemma_trim_start(text);
    lemma_trim_end(trim_start(text));
    let i = choose|i: int| 0 <= i < trimmed(text).len() && trimmed(text)[i] == c;
    let offset = text.len() - trim_start(text).len();
    assert(trim_start(text)[i] == c);
    assert(text[offset + i] == c);
}

/// A line that is kept is not empty, neither begins nor ends with white space,
/// and holds no line feed.
pub proof fn law_non_blank_lines_are_clean(text: Seq<char>, i: int)
    requires
        0 <= i < non_blank(text).len(),
    ensures
        non_blank(text)[i].len() > 0,
        !is_white_space(non_blank(text)[i][0]),
        !is_white_space(non_blank(text)[i].last()),
        !non_blank(text)[i].contains('\n'),
        trimmed(non_blank(text)[i]) == non_blank(text)[i],
{
    let trim = |line: Seq<char>| trimmed(line);
    let keep = |line: Seq<char>| line.len() > 0;
    let all = lines(text).map_values(trim);
    all.lemma_filter_pred(keep, i);
    let kept = non_blank(text)[i];
    assert(kept == all.filter(keep)[i]);
    assert(keep(kept));
    assert(all.contains(kept)) by {
        assert(all.filter(keep).contains(kept));
        all.lemma_filter_contains_rev(keep, kept);
    }
    let k = choose|k: int| 0 <= k < all.len() && all[k] == kept;
    let line = lines(text)[k];
    assert(kept == trimmed(line));
    law_trimmed(line);
    law_joined_of_split(text, '\n');
    if kept.contains('\n') {
        lemma_trimmed_contains(line, '\n');
    }
}

/// The lines that are kept of a text, joined again, are all kept as they are.
pub proof fn law_non_blank_lines_settle(text: Seq<char>)
    ensures
        non_blank(joined(non_blank(text), '\n')) == non_blank(text),
{
    let kept = non_blank(text);
    let trim = |line: Seq<char>| trimmed(line);
    let keep = |line: Seq<char>| line.len() > 0;
    if kept.len() == 0 {
        assert(joined(kept, '\n') =~= Seq::empty());
        let empty = Seq::<char>::empty();
        assert(lines(empty) =~= Seq::<Seq<char>>::empty().push(empty));
        lemma_not_blank_push(Seq::empty(), empty);
        assert(Seq::<Seq<char>>::empty().map_values(trim) =~= Seq::empty());
        assert(not_blank(Seq::empty()) =~= Seq::empty());
        assert(kept =~= Seq::empty());
    } else {
        assert forall|i: int| 0 <= i < kept.len() implies {
            &&& !(#[trigger] kept[i]).contains('\n')
            &&& trimmed(kept[i]) == kept[i]
            &&& kept[i].len() > 0
        } by {
            law_non_blank_lines_are_clean(text, i);
        }
        law_split_of_joined(kept, '\n');
        assert(kept.map_values(trim) =~= kept);
        lemma_filter_all(kept, keep);
    }
}

/// A filter that everything passes changes nothing.
proof fn lemma_filter_all(list: Seq<Seq<char>>, keep: spec_fn(Seq<char>) -> bool)
    requires
        forall|i: int| 0 <= i < list.len() ==> keep(#[trigger] list[i]),
    ensures
        list.filter(keep) == list,
    decreases list.len(),
{
    reveal(Seq::filter);
    if list.len() > 0 {
        assert forall|i: int| 0 <= i < list.drop_last().len() implies keep(
            #[trigger] list.drop_last()[i],
        ) by {
            assert(list.drop_last()[i] == list[i]);
        }
        lemma_filter_all(list.drop_last(), keep);
        assert(list.drop_last().push(list.last()) =~= list);
    }
}

/// The encoding of a text is decoded to the text; and what is no encoding of a
/// text to what the lossy decoding makes of it.
pub proof fn law_decoded(text: Seq<char>, bytes: Seq<u8>)
    ensures
        decoded(encode_utf8(text)) == text,
        valid_utf8(bytes) ==> encode_utf8(decoded(bytes)) == bytes,
        !valid_utf8(bytes) ==> decoded(bytes) == lossy_text(bytes),
{
    encode_utf8_valid_utf8(text);
    encode_utf8_decode_utf8(text);
    if valid_utf8(bytes) {
        decode_utf8_encode_utf8(bytes);
    }
}

/// A list holds what its texts hold, one for one and whole.
pub proof fn law_texts(list: Seq<String>)
    ensures
        texts(list).len() == list.len(),
        forall|i: int| 0 <= i < list.len() ==> #[trigger] texts(list)[i] == list[i]@,
{
}

/// A text that neither begins nor ends with white space is left as it is by
/// trimming, whatever white space there is around it.
pub proof fn law_trimmed_is_what_is_inside(before: Seq<char>, inside: Seq<char>, after: Seq<char>)
    requires
        forall|i: int| 0 <= i < before.len() ==> is_white_space(#[trigger] before[i]),
        forall|i: int| 0 <= i < after.len() ==> is_white_space(#[trigger] after[i]),
        inside.len() > 0 ==> !is_white_space(inside[0]) && !is_white_space(inside.last()),
    ensures
        trimmed(before + inside + after) == inside,
{
    crate::noise::law_padding_is_trimmed(inside, before + inside + after);
    assert(trimmed(inside) == inside);
}

/// The lines that are kept of several are those kept of the ones and those kept of
/// the others, in order; and of one line it is the line, trimmed and whole, where
/// that leaves anything.
pub proof fn law_each_line_is_kept(a: Seq<Seq<char>>, b: Seq<Seq<char>>, line: Seq<char>)
    ensures
        not_blank(a + b) == not_blank(a) + not_blank(b),
        trimmed(line).len() > 0 ==> not_blank(seq![line]) == seq![trimmed(line)],
        trimmed(line).len() == 0 ==> not_blank(seq![line]) == Seq::<Seq<char>>::empty(),
    decreases b.len(),
{
    let none = Seq::<Seq<char>>::empty();
    let trim = |line: Seq<char>| trimmed(line);
    assert(none.map_values(trim) =~= none);
    assert(not_blank(none) =~= none);
    lemma_not_blank_push(none, line);
    assert(none.push(line) =~= seq![line]);
    assert(none.push(trimmed(line)) =~= seq![trimmed(line)]);
    if b.len() == 0 {
        assert(a + b =~= a);
        assert(b =~= none);
        assert(not_blank(a) + none =~= not_blank(a));
    } else {
        law_each_line_is_kept(a, b.drop_last(), line);
        assert(a + b =~= (a + b.drop_last()).push(b.last()));
        assert(b =~= b.drop_last().push(b.last()));
        lemma_not_blank_push(a + b.drop_last(), b.last());
        lemma_not_blank_push(b.drop_last(), b.last());
        assert(not_blank(a + b) =~= not_blank(a) + not_blank(b));
    }
}

/// The lines of a text are those that give it back when they are put together
/// with line feeds; and what is kept of a text is what is kept of its lines.
pub proof fn law_lines_of_a_text(list: Seq<Seq<char>>)
    requires
        list.len() > 0,
        forall|i: int| 0 <= i < list.len() ==> !(#[trigger] list[i]).contains('\n'),
    ensures
        lines(joined(list, '\n')) == list,
        non_blank(joined(list, '\n')) == not_blank(list),
{
    law_split_of_joined(list, '\n');
}

/// Which characters are white space, each of them spelled out.
pub proof fn law_white_space(c: char)
    ensures
        is_white_space(c) <==> {
            ||| c == '\t' || c == '\n' || c == '\u{b}' || c == '\u{c}' || c == '\r' || c == ' '
            ||| c == '\u{85}' || c == '\u{a0}' || c == '\u{1680}' || c == '\u{2000}'
            ||| c == '\u{2001}' || c == '\u{2002}' || c == '\u{2003}' || c == '\u{2004}'
            ||| c == '\u{2005}' || c == '\u{2006}' || c == '\u{2007}' || c == '\u{2008}'
            ||| c == '\u{2009}' || c == '\u{200a}' || c == '\u{2028}' || c == '\u{2029}'
            ||| c == '\u{202f}' || c == '\u{205f}' || c == '\u{3000}'
        },
{
}

} // verus!
