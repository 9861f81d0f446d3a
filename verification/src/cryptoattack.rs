//! Crib search: where a known fragment of plaintext can lie under a
//! ciphertext, given that the machine never enciphers a symbol to itself.
use vstd::prelude::*;
use vstd::string::StringExecFns;
use crate::alphabet::all_capital;
use crate::enigma::{lemma_encode_message_differs, MachineModel};
use crate::error::EnigmaError;
use crate::text::{string_views, to_chars};

verus! {

/// The fragment can lie at the offset: at no place of the fragment does the
/// text hold the fragment's own symbol. The machine never enciphers a
/// symbol to itself, so plaintext cannot lie under ciphertext anywhere else.
pub open spec fn no_match_at(text: Seq<char>, fragment: Seq<char>, offset: int) -> bool {
    forall|j: int| 0 <= j < fragment.len() ==> text[offset + j] != #[trigger] fragment[j]
}

/// The list holds, in rising order, exactly the offsets at which the
/// fragment fits into the text and can lie: every offset from 0 up to and
/// including `text.len() - fragment.len()` at which no symbol of the
/// fragment meets itself in the text.
pub open spec fn lists_possible_positions(
    text: Seq<char>,
    fragment: Seq<char>,
    positions: Seq<usize>,
) -> bool {
    &&& forall|k: int|
        0 <= k < positions.len() ==> (#[trigger] positions[k]) <= text.len() - fragment.len()
            && no_match_at(text, fragment, positions[k] as int)
    &&& forall|a: int, b: int|
        0 <= a < b < positions.len() ==> (#[trigger] positions[a]) < (#[trigger] positions[b])
    &&& forall|i: int|
        0 <= i <= text.len() - fragment.len() && #[trigger] no_match_at(text, fragment, i)
            ==> positions.contains(i as usize)
}

/// An offset is listed just when the fragment fits into the text there and
/// no symbol of the fragment meets itself in the text.
pub proof fn lemma_listed_iff_possible(
    text: Seq<char>,
    fragment: Seq<char>,
    positions: Seq<usize>,
    i: int,
)
    requires
        lists_possible_positions(text, fragment, positions),
        0 <= i <= usize::MAX,
    ensures
        positions.contains(i as usize) <==> (i + fragment.len() <= text.len() && no_match_at(
            text,
            fragment,
            i,
        )),
{
    if positions.contains(i as usize) {
        let k = choose|k: int| 0 <= k < positions.len() && positions[k] == i as usize;
        assert(positions[k] <= text.len() - fragment.len());
    }
}

/// Where a fragment of the plaintext truly lies, it can lie: the ciphertext
/// that a machine makes of a text differs from the text at every place.
pub proof fn lemma_true_alignment_is_possible(
    m: MachineModel,
    plaintext: Seq<char>,
    fragment: Seq<char>,
    offset: int,
)
    requires
        m.wf(),
        all_capital(plaintext),
        0 <= offset,
        offset + fragment.len() <= plaintext.len(),
        plaintext.subrange(offset, offset + fragment.len()) == fragment,
    ensures
        no_match_at(m.encode_message(plaintext), fragment, offset),
{
    assert forall|j: int| 0 <= j < fragment.len() implies m.encode_message(plaintext)[offset + j]
        != #[trigger] fragment[j] by {
        lemma_encode_message_differs(m, plaintext, offset + j);
        assert(plaintext.subrange(offset, offset + fragment.len())[j] == plaintext[offset + j]);
    }
}

/// The true alignment is never left out: where a fragment of the plaintext
/// truly lies, a list of the possible positions of the fragment under the
/// ciphertext holds that offset.
pub proof fn lemma_true_alignment_is_listed(
    m: MachineModel,
    plaintext: Seq<char>,
    fragment: Seq<char>,
    offset: int,
    positions: Seq<usize>,
)
    requires
        m.wf(),
        all_capital(plaintext),
        0 <= offset,
        offset + fragment.len() <= plaintext.len(),
        plaintext.subrange(offset, offset + fragment.len()) == fragment,
        lists_possible_positions(m.encode_message(plaintext), fragment, positions),
    ensures
        positions.contains(offset as usize),
{
    lemma_true_alignment_is_possible(m, plaintext, fragment, offset);
    assert(m.encode_message(plaintext).len() == plaintext.len());
}

/// Whether the fragment can lie at the offset.
fn differs_everywhere(text: &Vec<char>, offset: usize, fragment: &Vec<char>) -> (result: bool)
    requires
        offset + fragment@.len() <= text@.len(),
    ensures
        result == no_match_at(text@, fragment@, offset as int),
{
    let length = text.len();
    for j in 0..fragment.len()
        invariant
            length == text@.len(),
            offset + fragment@.len() <= text@.len(),
            forall|k: int| 0 <= k < j ==> text@[offset + k] != #[trigger] fragment@[k],
    {
        if text[offset + j] == fragment[j] {
            return false;
        }
    }
    true
}

/// The offsets at which a known fragment of plaintext can lie under a
/// ciphertext, in rising order: each offset at which the fragment fits into
/// the ciphertext, the last one included, and at which no symbol of the
/// fragment meets itself in the ciphertext.
///
/// A fragment that is empty or longer than the ciphertext is refused with
/// `InvalidCrib`. A fragment as long as the ciphertext has one offset to
/// lie at, the first. Where the ciphertext is what a machine made of a
/// plaintext, the offsets at which the fragment truly lies in the plaintext
/// are among the result: see `lemma_true_alignment_is_listed`.
pub fn find_possible_positions(ciphertext: &str, known_plaintext: &str) -> (result: Result<
    Vec<usize>,
    EnigmaError,
>)
    ensures
        known_plaintext@.len() == 0 || known_plaintext@.len() > ciphertext@.len() ==> (
        result matches Err(e) && e == EnigmaError::InvalidCrib),
        0 < known_plaintext@.len() <= ciphertext@.len() ==> (result matches Ok(positions)
            && lists_possible_positions(ciphertext@, known_plaintext@, positions@)),
{
    let text = to_chars(ciphertext);
    let fragment = to_chars(known_plaintext);
    let plaintext_length = fragment.len();
    if plaintext_length == 0 || plaintext_length > text.len() {
        return Err(EnigmaError::InvalidCrib);
    }
    let max_index = text.len() - plaintext_length;
    let mut result: Vec<usize> = Vec::new();
    for i in 0..max_index + 1
        invariant
            max_index == text@.len() - fragment@.len(),
            forall|k: int|
                0 <= k < result@.len() ==> (#[trigger] result@[k]) < i && no_match_at(
                    text@,
                    fragment@,
                    result@[k] as int,
                ),
            forall|a: int, b: int|
                0 <= a < b < result@.len() ==> (#[trigger] result@[a]) < (#[trigger] result@[b]),
            forall|p: int|
                0 <= p < i && #[trigger] no_match_at(text@, fragment@, p) ==> result@.contains(
                    p as usize,
                ),
    {
        let ghost before = result@;
        if differs_everywhere(&text, i, &fragment) {
            result.push(i);
            assert(result@[before.len() as int] == i);
        }
        assert forall|p: int|
            0 <= p < i + 1 && #[trigger] no_match_at(text@, fragment@, p) implies result@.contains(
            p as usize,
        ) by {
            if p < i {
                assert(before.contains(p as usize));
                let k = choose|k: int| 0 <= k < before.len() && before[k] == p as usize;
                assert(result@[k] == p as usize);
            }
        }
    }
    Ok(result)
}

/// Whether two texts of one length differ at every place.
///
/// Texts of different lengths, and empty texts, are refused with
/// `InvalidCrib`.
pub fn characters_at_each_position_do_not_match(text_1: &str, text_2: &str) -> (result: Result<
    bool,
    EnigmaError,
>)
    ensures
        text_1@.len() != text_2@.len() || text_1@.len() == 0 ==> result == Err::<
            bool,
            EnigmaError,
        >(EnigmaError::InvalidCrib),
        text_1@.len() == text_2@.len() && text_1@.len() > 0 ==> result == Ok::<
            bool,
            EnigmaError,
        >(no_match_at(text_1@, text_2@, 0)),
{
    let first = to_chars(text_1);
    let second = to_chars(text_2);
    if first.len() != second.len() || first.len() == 0 {
        return Err(EnigmaError::InvalidCrib);
    }
    Ok(differs_everywhere(&first, 0, &second))
}

/// The line that shows a fragment laid under a text at an offset: as many
/// blanks as the offset, then the fragment.
pub open spec fn overlay_line(fragment: Seq<char>, offset: int) -> Seq<char> {
    Seq::new(offset as nat, |j: int| ' ') + fragment
}

/// The lines that show a fragment laid under a text at each of the given
/// offsets in turn. The text itself heads the first overlay and then every
/// tenth.
pub open spec fn overlay_lines(text: Seq<char>, fragment: Seq<char>, positions: Seq<usize>) -> Seq<
    Seq<char>,
>
    decreases positions.len(),
{
    if positions.len() == 0 {
        Seq::empty()
    } else {
        let before = overlay_lines(text, fragment, positions.drop_last());
        let headed = if (positions.len() - 1) % 10 == 0 {
            before.push(text)
        } else {
            before
        };
        headed.push(overlay_line(fragment, positions.last() as int))
    }
}

/// Draws the possible positions of a fragment under a text, one line for
/// each position, with the text repeated above every tenth.
pub fn render_possible_positions(text: &str, known_plaintext: &str, result: &[usize]) -> (lines:
    Vec<String>)
    ensures
        string_views(lines@) == overlay_lines(text@, known_plaintext@, result@),
{
    let mut lines: Vec<String> = Vec::new();
    assert(string_views(lines@) =~= overlay_lines(text@, known_plaintext@, result@.take(0)));
    for i in 0..result.len()
        invariant
            string_views(lines@) == overlay_lines(text@, known_plaintext@, result@.take(i as int)),
    {
        let ghost before = string_views(lines@);
        proof {
            assert(result@.take(i + 1).drop_last() =~= result@.take(i as int));
            assert(result@.take(i + 1).last() == result@[i as int]);
        }
        if i % 10 == 0 {
            lines.push(String::from_str(text));
        }
        let ghost headed = string_views(lines@);
        assert(headed =~= if i % 10 == 0 {
            before.push(text@)
        } else {
            before
        });
        let index = result[i];
        let mut line = String::new();
        for j in 0..index
            invariant
                line@ == Seq::new(j as nat, |k: int| ' '),
        {
            line.push(' ');
            assert(line@ =~= Seq::new((j + 1) as nat, |k: int| ' '));
        }
        line.append(known_plaintext);
        lines.push(line);
        assert(string_views(lines@) =~= headed.push(overlay_line(known_plaintext@, index as int)));
    }
    assert(result@.take(result@.len() as int) =~= result@);
    lines
}

} // verus!
