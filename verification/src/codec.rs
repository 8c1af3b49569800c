use vstd::prelude::*;
use crate::model::CheckboxState;

verus! {

/// A request to put one checkbox into a given state.
#[derive(Debug, Clone, Copy, PartialEq, Eq, Structural)]
pub struct ToggleCommand {
    pub checkbox_id: usize,
    pub state: bool,
}

/// The separator between the fields of a command: `:`.
pub open spec fn separator() -> u8 {
    58u8
}

/// The bytes of `checkbox:`, with which every toggle command begins.
pub open spec fn command_prefix() -> Seq<u8> {
    seq![99u8, 104u8, 101u8, 99u8, 107u8, 98u8, 111u8, 120u8, 58u8]
}

/// The bytes of `Checkbox updated: `, with which every change notification
/// begins.
pub open spec fn notification_prefix() -> Seq<u8> {
    seq![
        67u8, 104u8, 101u8, 99u8, 107u8, 98u8, 111u8, 120u8, 32u8, 117u8, 112u8, 100u8, 97u8, 116u8,
        101u8, 100u8, 58u8, 32u8,
    ]
}

/// The bytes of `true`.
pub open spec fn true_text() -> Seq<u8> {
    seq![116u8, 114u8, 117u8, 101u8]
}

/// The bytes of `false`.
pub open spec fn false_text() -> Seq<u8> {
    seq![102u8, 97u8, 108u8, 115u8, 101u8]
}

pub open spec fn starts_with(text: Seq<u8>, prefix: Seq<u8>) -> bool {
    prefix.len() <= text.len() && text.subrange(0, prefix.len() as int) == prefix
}

/// `frame` without the command prefix, however often it is repeated at the
/// start.
pub open spec fn strip_prefixes(frame: Seq<u8>) -> Seq<u8>
    decreases frame.len(),
{
    if starts_with(frame, command_prefix()) {
        strip_prefixes(frame.skip(9))
    } else {
        frame
    }
}

/// Where the first separator of `text` stands, or the length of `text` if
/// it has none.
pub open spec fn first_separator(text: Seq<u8>) -> int
    decreases text.len(),
{
    if text.len() == 0 || text[0] == separator() {
        0
    } else {
        1 + first_separator(text.skip(1))
    }
}

pub open spec fn is_digit(byte: u8) -> bool {
    48 <= byte <= 57
}

/// The number that the decimal digits `digits` write; a byte that is no
/// digit counts as zero.
pub open spec fn digits_value(digits: Seq<u8>) -> nat
    decreases digits.len(),
{
    if digits.len() == 0 {
        0
    } else {
        digits_value(digits.drop_last()) * 10 + (if is_digit(digits.last()) {
            (digits.last() - 48) as nat
        } else {
            0
        })
    }
}

/// One decimal digit or more, and nothing else.
pub open spec fn is_number(text: Seq<u8>) -> bool {
    text.len() > 0 && forall|i: int| 0 <= i < text.len() ==> is_digit(#[trigger] text[i])
}

/// The checkbox index that `field` writes: decimal digits, which a single
/// `+` may precede, of a value that a `usize` holds.
pub open spec fn index_value(field: Seq<u8>) -> Option<usize> {
    let digits = if field.len() > 0 && field[0] == 43u8 {
        field.skip(1)
    } else {
        field
    };
    if is_number(digits) && digits_value(digits) <= usize::MAX {
        Some(digits_value(digits) as usize)
    } else {
        None
    }
}

/// The state that `field` writes: `true` or `false`, exactly.
pub open spec fn state_value(field: Seq<u8>) -> Option<bool> {
    if field == true_text() {
        Some(true)
    } else if field == false_text() {
        Some(false)
    } else {
        None
    }
}

/// The command that `info` writes: an index, a separator and a state.
/// Whatever follows a second separator is not looked at.
pub open spec fn info_value(info: Seq<u8>) -> Option<ToggleCommand> {
    let first = first_separator(info);
    if first >= info.len() {
        None
    } else {
        let rest = info.skip(first + 1);
        let second = first_separator(rest);
        match (index_value(info.subrange(0, first)), state_value(rest.subrange(0, second))) {
            (Some(checkbox_id), Some(state)) => Some(ToggleCommand { checkbox_id, state }),
            _ => None,
        }
    }
}

/// The toggle command that `frame` carries, if it is one.
pub open spec fn decode_toggle(frame: Seq<u8>) -> Option<ToggleCommand> {
    if starts_with(frame, command_prefix()) {
        info_value(strip_prefixes(frame))
    } else {
        None
    }
}

/// The change notification for the toggle that `frame` carries: the
/// notification prefix, then the command's fields as they were sent.
pub open spec fn notification_of(frame: Seq<u8>) -> Seq<u8> {
    notification_prefix() + strip_prefixes(frame)
}

proof fn lemma_first_separator(text: Seq<u8>, k: int)
    requires
        0 <= k <= text.len(),
        forall|j: int| 0 <= j < k ==> text[j] != separator(),
        k < text.len() ==> text[k] == separator(),
    ensures
        first_separator(text) == k,
    decreases k,
{
    if k > 0 {
        let tail = text.skip(1);
        assert forall|j: int| 0 <= j < k - 1 implies tail[j] != separator() by {
            assert(tail[j] == text[j + 1]);
        }
        lemma_first_separator(tail, k - 1);
    }
}

proof fn lemma_digits_value_prefix(digits: Seq<u8>, k: int)
    requires
        0 <= k <= digits.len(),
    ensures
        digits_value(digits.subrange(0, k)) <= digits_value(digits),
    decreases digits.len(),
{
    if k < digits.len() {
        lemma_digits_value_prefix(digits.drop_last(), k);
        assert(digits.drop_last().subrange(0, k) =~= digits.subrange(0, k));
    } else {
        assert(digits.subrange(0, k) =~= digits);
    }
}

/// Whether the command prefix stands in `frame` at `at`.
fn prefix_at(frame: &[u8], at: usize) -> (found: bool)
    requires
        at <= frame@.len(),
    ensures
        found == starts_with(frame@.skip(at as int), command_prefix()),
{
    let ghost tail = frame@.skip(at as int);
    if frame.len() - at < 9 {
        return false;
    }
    let found = frame[at] == 99u8 && frame[at + 1] == 104u8 && frame[at + 2] == 101u8 && frame[at
        + 3] == 99u8 && frame[at + 4] == 107u8 && frame[at + 5] == 98u8 && frame[at + 6] == 111u8
        && frame[at + 7] == 120u8 && frame[at + 8] == 58u8;
    proof {
        let head = tail.subrange(0, 9);
        assert(head[0] == frame@[at + 0] && head[1] == frame@[at + 1] && head[2] == frame@[at + 2]
            && head[3] == frame@[at + 3] && head[4] == frame@[at + 4] && head[5] == frame@[at + 5]
            && head[6] == frame@[at + 6] && head[7] == frame@[at + 7] && head[8] == frame@[at + 8]);
        if found {
            assert(head =~= command_prefix());
        } else {
            assert(head != command_prefix());
        }
    }
    found
}

/// Where the command's fields begin in `frame`: behind the last of the
/// prefixes it starts with.
fn fields_start(frame: &[u8]) -> (start: usize)
    ensures
        start <= frame@.len(),
        strip_prefixes(frame@) == frame@.skip(start as int),
        starts_with(frame@, command_prefix()) <==> start > 0,
{
    let mut start: usize = 0;
    let length: usize = frame.len();
    assert(frame@.skip(0) =~= frame@);
    while prefix_at(frame, start)
        invariant
            length == frame@.len(),
            start <= frame@.len(),
            strip_prefixes(frame@) == strip_prefixes(frame@.skip(start as int)),
            starts_with(frame@, command_prefix()) <==> start > 0 || starts_with(
                frame@.skip(start as int),
                command_prefix(),
            ),
        decreases frame@.len() - start,
    {
        assert(command_prefix().len() == 9);
        assert(frame@.skip(start as int).len() == frame@.len() - start);
        assert(frame@.skip(start as int).skip(9) =~= frame@.skip(start + 9));
        start += 9;
    }
    start
}

/// The first separator of `frame` at or behind `from`, or the frame's end.
fn find_separator(frame: &[u8], from: usize) -> (at: usize)
    requires
        from <= frame@.len(),
    ensures
        from <= at <= frame@.len(),
        at - from == first_separator(frame@.skip(from as int)),
{
    let mut at: usize = from;
    while at < frame.len() && frame[at] != 58u8
        invariant
            from <= at <= frame@.len(),
            forall|j: int| from <= j < at ==> frame@[j] != separator(),
        decreases frame@.len() - at,
    {
        at += 1;
    }
    proof {
        lemma_first_separator(frame@.skip(from as int), at - from);
    }
    at
}

/// Reads bytes `from..to` of `frame` as a checkbox index.
pub fn parse_index(frame: &[u8], from: usize, to: usize) -> (index: Option<usize>)
    requires
        from <= to <= frame@.len(),
    ensures
        index == index_value(frame@.subrange(from as int, to as int)),
{
    let ghost field = frame@.subrange(from as int, to as int);
    let first: usize = if from < to && frame[from] == 43u8 {
        from + 1
    } else {
        from
    };
    let ghost digits = frame@.subrange(first as int, to as int);
    assert(digits =~= if field.len() > 0 && field[0] == 43u8 {
        field.skip(1)
    } else {
        field
    });
    if first == to {
        return None;
    }
    let mut value: usize = 0;
    let mut at: usize = first;
    assert(digits.subrange(0, 0) =~= Seq::<u8>::empty());
    while at < to
        invariant
            first <= at <= to <= frame@.len(),
            first < to,
            field == frame@.subrange(from as int, to as int),
            digits == frame@.subrange(first as int, to as int),
            digits == (if field.len() > 0 && field[0] == 43u8 {
                field.skip(1)
            } else {
                field
            }),
            forall|j: int| 0 <= j < at - first ==> is_digit(#[trigger] digits[j]),
            value == digits_value(digits.subrange(0, at - first)),
        decreases to - at,
    {
        let byte: u8 = frame[at];
        if byte < 48u8 || byte > 57u8 {
            assert(!is_digit(digits[at - first]));
            return None;
        }
        let digit: usize = (byte - 48u8) as usize;
        proof {
            let next = digits.subrange(0, at - first + 1);
            assert(next.drop_last() =~= digits.subrange(0, at - first));
            assert(next.last() == byte);
            lemma_digits_value_prefix(digits, at - first + 1);
        }
        if value > (usize::MAX - digit) / 10 {
            return None;
        }
        value = value * 10 + digit;
        at += 1;
    }
    assert(digits.subrange(0, to - first) =~= digits);
    Some(value)
}

/// Reads bytes `from..to` of `frame` as a checkbox state.
pub fn parse_state(frame: &[u8], from: usize, to: usize) -> (state: Option<bool>)
    requires
        from <= to <= frame@.len(),
    ensures
        state == state_value(frame@.subrange(from as int, to as int)),
{
    let ghost field = frame@.subrange(from as int, to as int);
    if to - from == 4 {
        let found = frame[from] == 116u8 && frame[from + 1] == 114u8 && frame[from + 2] == 117u8
            && frame[from + 3] == 101u8;
        proof {
            assert(field[0] == frame@[from + 0] && field[1] == frame@[from + 1] && field[2]
                == frame@[from + 2] && field[3] == frame@[from + 3]);
            if found {
                assert(field =~= true_text());
            } else {
                assert(field != true_text());
            }
            assert(field.len() != false_text().len());
        }
        if found {
            Some(true)
        } else {
            None
        }
    } else if to - from == 5 {
        let found = frame[from] == 102u8 && frame[from + 1] == 97u8 && frame[from + 2] == 108u8
            && frame[from + 3] == 115u8 && frame[from + 4] == 101u8;
        proof {
            assert(field[0] == frame@[from + 0] && field[1] == frame@[from + 1] && field[2]
                == frame@[from + 2] && field[3] == frame@[from + 3] && field[4] == frame@[from + 4]);
            if found {
                assert(field =~= false_text());
            } else {
                assert(field != false_text());
            }
            assert(field.len() != true_text().len());
        }
        if found {
            Some(false)
        } else {
            None
        }
    } else {
        assert(field.len() != true_text().len());
        assert(field.len() != false_text().len());
        None
    }
}

/// Decodes an inbound frame. A frame that is no well-formed toggle command
/// gives `None`.
pub fn parse_toggle(frame: &[u8]) -> (command: Option<ToggleCommand>)
    ensures
        command == decode_toggle(frame@),
{
    let start: usize = fields_start(frame);
    if start == 0 {
        return None;
    }
    let ghost info = frame@.skip(start as int);
    let first: usize = find_separator(frame, start);
    if first >= frame.len() {
        return None;
    }
    let second: usize = find_separator(frame, first + 1);
    proof {
        let rest = info.skip(first - start + 1);
        assert(rest =~= frame@.skip(first + 1));
        assert(info.subrange(0, first - start) =~= frame@.subrange(start as int, first as int));
        assert(rest.subrange(0, second - first - 1) =~= frame@.subrange(first + 1, second as int));
    }
    let checkbox_id = parse_index(frame, start, first);
    let state = parse_state(frame, first + 1, second);
    match (checkbox_id, state) {
        (Some(checkbox_id), Some(state)) => Some(ToggleCommand { checkbox_id, state }),
        _ => None,
    }
}

/// Encodes the change notification for the toggle that `frame` carries.
pub fn change_notification(frame: &[u8]) -> (message: Vec<u8>)
    ensures
        message@ == notification_of(frame@),
{
    let start: usize = fields_start(frame);
    let mut message: Vec<u8> = vec![
        67u8, 104u8, 101u8, 99u8, 107u8, 98u8, 111u8, 120u8, 32u8, 117u8, 112u8, 100u8, 97u8, 116u8,
        101u8, 100u8, 58u8, 32u8,
    ];
    assert(message@ =~= notification_prefix());
    let mut at: usize = start;
    while at < frame.len()
        invariant
            start <= at <= frame@.len(),
            message@ == notification_prefix() + frame@.subrange(start as int, at as int),
        decreases frame@.len() - at,
    {
        message.push(frame[at]);
        assert(message@ =~= notification_prefix() + frame@.subrange(start as int, at + 1));
        at += 1;
    }
    assert(frame@.subrange(start as int, at as int) =~= frame@.skip(start as int));
    message
}

/// The bytes of `{"true_indices":`, with which a snapshot message begins.
pub open spec fn snapshot_opening() -> Seq<u8> {
    seq![
        123u8, 34u8, 116u8, 114u8, 117u8, 101u8, 95u8, 105u8, 110u8, 100u8, 105u8,
        99u8, 101u8, 115u8, 34u8, 58u8,
    ]
}

/// The bytes of `,"false_indices":`.
pub open spec fn snapshot_middle() -> Seq<u8> {
    seq![
        44u8, 34u8, 102u8, 97u8, 108u8, 115u8, 101u8, 95u8, 105u8, 110u8, 100u8, 105u8,
        99u8, 101u8, 115u8, 34u8, 58u8,
    ]
}

/// The bytes of `,"is_initial":`.
pub open spec fn snapshot_flag() -> Seq<u8> {
    seq![
        44u8, 34u8, 105u8, 115u8, 95u8, 105u8, 110u8, 105u8, 116u8, 105u8, 97u8, 108u8,
        34u8, 58u8,
    ]
}

/// The snapshot message: one JSON object with the two index lists, given
/// here as the JSON arrays `true_json` and `false_json`, and the flag.
pub open spec fn snapshot_frame(true_json: Seq<u8>, false_json: Seq<u8>, is_initial: bool) -> Seq<u8> {
    snapshot_opening() + true_json + snapshot_middle() + false_json + snapshot_flag() + (if is_initial {
        true_text()
    } else {
        false_text()
    }) + seq![125u8]
}

/// What JSON encoding makes of `indices`: the compact array text, as UTF-8.
pub uninterp spec fn json_array(indices: Seq<usize>) -> Option<Seq<u8>>;

/// A snapshot could not be put into JSON.
#[derive(Debug, Clone, Copy, PartialEq, Eq, Structural)]
pub enum EncodeError {
    Json,
}

/// `serde_json::to_string` on a list of numbers. Its answer depends on the
/// list alone: the bytes of its string, or none where it fails.
#[verifier::external_body]
fn json_of_indices(indices: &Vec<usize>) -> (text: Result<Vec<u8>, serde_json::Error>)
    ensures
        text matches Ok(bytes) ==> json_array(indices@) == Some(bytes@),
        text is Err ==> json_array(indices@).is_none(),
{
    serde_json::to_string(indices).map(String::into_bytes)
}

/// Adds `bytes` to the end of `out`.
fn append(out: &mut Vec<u8>, bytes: &[u8])
    ensures
        final(out)@ == old(out)@ + bytes@,
{
    let mut at: usize = 0;
    while at < bytes.len()
        invariant
            at <= bytes@.len(),
            out@ == old(out)@ + bytes@.subrange(0, at as int),
        decreases bytes@.len() - at,
    {
        out.push(bytes[at]);
        assert(out@ =~= old(out)@ + bytes@.subrange(0, at + 1));
        at += 1;
    }
    assert(bytes@.subrange(0, at as int) =~= bytes@);
}

/// Puts the two index lists, already written as JSON arrays, and the flag
/// into one snapshot message.
pub fn frame_snapshot(true_json: &[u8], false_json: &[u8], is_initial: bool) -> (message: Vec<u8>)
    ensures
        message@ == snapshot_frame(true_json@, false_json@, is_initial),
{
    let mut message: Vec<u8> = vec![
        123u8, 34u8, 116u8, 114u8, 117u8, 101u8, 95u8, 105u8, 110u8, 100u8, 105u8,
        99u8, 101u8, 115u8, 34u8, 58u8,
    ];
    let middle: Vec<u8> = vec![
        44u8, 34u8, 102u8, 97u8, 108u8, 115u8, 101u8, 95u8, 105u8, 110u8, 100u8, 105u8,
        99u8, 101u8, 115u8, 34u8, 58u8,
    ];
    let flag: Vec<u8> = vec![
        44u8, 34u8, 105u8, 115u8, 95u8, 105u8, 110u8, 105u8, 116u8, 105u8, 97u8, 108u8,
        34u8, 58u8,
    ];
    assert(message@ =~= snapshot_opening());
    assert(middle@ =~= snapshot_middle());
    assert(flag@ =~= snapshot_flag());
    append(&mut message, true_json);
    append(&mut message, middle.as_slice());
    append(&mut message, false_json);
    append(&mut message, flag.as_slice());
    if is_initial {
        let word: Vec<u8> = vec![116u8, 114u8, 117u8, 101u8];
        assert(word@ =~= true_text());
        append(&mut message, word.as_slice());
    } else {
        let word: Vec<u8> = vec![102u8, 97u8, 108u8, 115u8, 101u8];
        assert(word@ =~= false_text());
        append(&mut message, word.as_slice());
    }
    message.push(125u8);
    assert(message@ =~= snapshot_frame(true_json@, false_json@, is_initial));
    message
}

/// Encodes a snapshot as the message a client receives: a JSON object that
/// names the set indices, the clear indices and whether this is the initial
/// state.
pub fn encode_snapshot(snapshot: &CheckboxState) -> (message: Result<Vec<u8>, EncodeError>)
    ensures
        match snapshot_message(
            json_array(snapshot.true_indices@),
            json_array(snapshot.false_indices@),
            snapshot.is_initial,
        ) {
            Some(bytes) => message.is_ok() && message.unwrap()@ == bytes,
            None => message == Err::<Vec<u8>, EncodeError>(EncodeError::Json),
        },
{
    let true_json = match json_of_indices(&snapshot.true_indices) {
        Ok(bytes) => bytes,
        Err(_) => {
            return Err(EncodeError::Json);
        },
    };
    let false_json = match json_of_indices(&snapshot.false_indices) {
        Ok(bytes) => bytes,
        Err(_) => {
            return Err(EncodeError::Json);
        },
    };
    Ok(frame_snapshot(true_json.as_slice(), false_json.as_slice(), snapshot.is_initial))
}

/// The snapshot message for two index lists as JSON encoding gave them:
/// the frame round both arrays, or none where a list could not be encoded.
pub open spec fn snapshot_message(
    true_json: Option<Seq<u8>>,
    false_json: Option<Seq<u8>>,
    is_initial: bool,
) -> Option<Seq<u8>> {
    match (true_json, false_json) {
        (Some(set), Some(clear)) => Some(snapshot_frame(set, clear, is_initial)),
        _ => None,
    }
}

/// `serde_json::Error`: carried, unread, from the encoder to where it is
/// turned into an `EncodeError`.
#[verifier::external_type_specification]
#[verifier::external_body]
pub struct ExJsonError(serde_json::Error);


} // verus!
