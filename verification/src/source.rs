//! The wiring source: records `ID:WIRING:NOTCH`, one to a line.
use vstd::prelude::*;
use vstd::string::StrSliceExecFns;
use crate::error::EnigmaError;
use crate::text::{
    lemma_split_on_len, lines, lines_of, piece_views, same_symbols, split, split_on,
    string_views, to_chars, to_text,
};

verus! {

/// A line that begins with `#` is a comment.
pub open spec fn is_comment(line: Seq<char>) -> bool {
    line.len() > 0 && line[0] == '#'
}

/// The line is a record with the given identifier: no comment, and its
/// first field, up to the first `:`, is the identifier.
pub open spec fn is_record_of(line: Seq<char>, id: Seq<char>) -> bool {
    !is_comment(line) && split_on(line, ':')[0] == id
}

/// The fields that follow the identifier in the first record with the given
/// identifier, if there is such a record.
pub open spec fn find_record(lines: Seq<Seq<char>>, id: Seq<char>) -> Option<Seq<Seq<char>>>
    decreases lines.len(),
{
    if lines.len() == 0 {
        None
    } else if is_record_of(lines[0], id) {
        Some(split_on(lines[0], ':').skip(1))
    } else {
        find_record(lines.drop_first(), id)
    }
}

/// What a record holds after its identifier: the wiring in its first
/// field, and the notch symbol, which is all of its second field. A record
/// with fewer or more fields, or with a notch field of no symbol or of more
/// than one, holds nothing.
pub open spec fn record_data(items: Seq<Seq<char>>) -> Option<(Seq<char>, char)> {
    if items.len() == 2 && items[1].len() == 1 {
        Some((items[0], items[1][0]))
    } else {
        None
    }
}

/// The wiring and the notch symbol that a wiring source holds for an
/// identifier. The source is a text of records `ID:WIRING:NOTCH`, one to a
/// line; the first record with the identifier counts. `NotFound` where no
/// record has the identifier, `MalformedRecord` where the record does not
/// hold exactly a wiring field and a notch field of one symbol.
pub open spec fn items_for_id(content: Seq<char>, id: Seq<char>) -> Result<
    (Seq<char>, char),
    EnigmaError,
> {
    match find_record(lines_of(content), id) {
        None => Err(EnigmaError::NotFound),
        Some(items) => match record_data(items) {
            None => Err(EnigmaError::MalformedRecord),
            Some(data) => Ok(data),
        },
    }
}

/// Looks up the first record with the given identifier and gives the
/// fields that follow the identifier. `NotFound` where no record has it.
pub fn find_line_for_rotor_id(content: &str, id: &str) -> (result: Result<
    Vec<String>,
    EnigmaError,
>)
    ensures
        find_record(lines_of(content@), id@) matches Some(items) ==> (result matches Ok(found)
            && string_views(found@) == items),
        find_record(lines_of(content@), id@) is None ==> (result matches Err(e) && e
            == EnigmaError::NotFound),
{
    let wanted = to_chars(id);
    let all = lines(&to_chars(content));
    let ghost records = piece_views(all@);
    assert(records.skip(0) =~= records);
    for i in 0..all.len()
        invariant
            wanted@ == id@,
            records == piece_views(all@),
            records == lines_of(content@),
            find_record(records, id@) == find_record(records.skip(i as int), id@),
    {
        let line = &all[i];
        proof {
            assert(records.skip(i as int)[0] == line@);
            assert(records.skip(i as int).drop_first() =~= records.skip(i + 1));
            lemma_split_on_len(line@, ':');
        }
        if !(line.len() > 0 && line[0] == '#') {
            let fields = split(line, ':');
            if same_symbols(&fields[0], &wanted) {
                let mut items: Vec<String> = Vec::new();
                for k in 1..fields.len()
                    invariant
                        fields@.len() >= 1,
                        items@.len() == k - 1,
                        forall|j: int|
                            0 <= j < k - 1 ==> (#[trigger] items@[j])@ == fields@[j + 1]@,
                {
                    items.push(to_text(&fields[k]));
                }
                assert(string_views(items@) =~= piece_views(fields@).skip(1));
                return Ok(items);
            }
        }
    }
    Err(EnigmaError::NotFound)
}

/// Reads the wiring and the notch symbol from the fields of a record: a
/// wiring field and a notch field of exactly one symbol. Anything else
/// (a field too few or too many, a notch field that is empty or longer) is
/// refused with `MalformedRecord`.
pub fn extract_data_from_line(items: &Vec<String>) -> (result: Result<(String, char), EnigmaError>)
    ensures
        record_data(string_views(items@)) matches Some(data) ==> (result matches Ok(found)
            && found.0@ == data.0 && found.1 == data.1),
        record_data(string_views(items@)) is None ==> (result matches Err(e) && e
            == EnigmaError::MalformedRecord),
{
    if items.len() != 2 {
        return Err(EnigmaError::MalformedRecord);
    }
    assert(string_views(items@)[0] == items@[0]@);
    assert(string_views(items@)[1] == items@[1]@);
    let pattern = items[0].clone();
    let notch_field = items[1].as_str();
    if notch_field.unicode_len() != 1 {
        return Err(EnigmaError::MalformedRecord);
    }
    let turnover_char = notch_field.get_char(0);
    Ok((pattern, turnover_char))
}

/// The wiring and the notch symbol that the source holds for an identifier.
pub fn get_items_for_id(content: &str, id: &str) -> (result: Result<(String, char), EnigmaError>)
    ensures
        items_for_id(content@, id@) matches Ok(data) ==> (result matches Ok(found) && found.0@
            == data.0 && found.1 == data.1),
        items_for_id(content@, id@) matches Err(error) ==> (result matches Err(e) && e == error),
{
    let line = match find_line_for_rotor_id(content, id) {
        Ok(line) => line,
        Err(e) => { return Err(e); },
    };
    extract_data_from_line(&line)
}

} // verus!
