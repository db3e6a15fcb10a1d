//! Opening a report or its folder: the path handed to the opener, and its outcome.
use crate::text;
use vstd::prelude::*;
use vstd::utf8::*;

verus! {

/// The error of `serde_json`.
#[verifier::external_type_specification]
#[verifier::external_body]
pub struct ExJsonError(serde_json::Error);

/// The hexadecimal digit for `n`, which is less than sixteen.
pub open spec fn hex_digit(n: u32) -> char {
    if n < 10 {
        (48 + n) as char
    } else {
        (87 + n) as char
    }
}

/// What stands for `c` in a JSON string.
pub open spec fn json_char(c: char) -> Seq<char> {
    if c == '"' {
        seq!['\\', '"']
    } else if c == '\\' {
        seq!['\\', '\\']
    } else if c == '\u{8}' {
        seq!['\\', 'b']
    } else if c == '\t' {
        seq!['\\', 't']
    } else if c == '\n' {
        seq!['\\', 'n']
    } else if c == '\u{c}' {
        seq!['\\', 'f']
    } else if c == '\r' {
        seq!['\\', 'r']
    } else if (c as u32) < 32 {
        seq!['\\', 'u', '0', '0', hex_digit(c as u32 / 16), hex_digit(c as u32 % 16)]
    } else {
        seq![c]
    }
}

pub open spec fn json_escape() -> spec_fn(char) -> Seq<char> {
    |c: char| json_char(c)
}

/// A text as a JSON string.
pub open spec fn json_text(s: Seq<char>) -> Seq<char> {
    seq!['"'] + text::expanded(s, json_escape()) + seq!['"']
}

/// Calls `serde_json::to_string` on a text. Serialising a text does not fail, and gives a
/// JSON string: the text between quotes, with quotes, backslashes and the characters
/// below the space escaped.
#[verifier::external_body]
fn to_json(s: &str) -> (r: Result<String, serde_json::Error>)
    ensures
        r is Ok,
        r->Ok_0@ == json_text(s@),
{
    serde_json::to_string(s)
}

/// What the opener is handed on its input: the path as a JSON string.
pub fn open_input(path: &str) -> (r: String)
    ensures
        r@ == json_text(path@),
{
    to_json(path).unwrap()
}

/// Takes the outcome of the opener, given its error output as text.
pub fn open_outcome(success: bool, errors: &str) -> (r: Result<(), String>)
    ensures
        success ==> r is Ok,
        !success ==> (r matches Err(e) && e@ == errors@),
{
    if success {
        Ok(())
    } else {
        Err(errors.to_owned())
    }
}

/// Takes the outcome of an opener that had this error output.
pub fn open_result(success: bool, errors: &[u8]) -> (r: Result<(), String>)
    ensures
        success ==> r is Ok,
        !success ==> (r matches Err(e) && e@ == text::lossy_text(errors@)),
        !success && valid_utf8(errors@) ==> (r matches Err(e) && e@ == decode_utf8(errors@)),
{
    let shown = text::from_utf8_lossy(errors);
    open_outcome(success, shown.as_str())
}

/// The character that the contents of a JSON string start with, and how many characters
/// stand for it.
pub open spec fn json_first(s: Seq<char>) -> (char, int) {
    if s[0] != '\\' {
        (s[0], 1)
    } else if s[1] == 'b' {
        ('\u{8}', 2)
    } else if s[1] == 't' {
        ('\t', 2)
    } else if s[1] == 'n' {
        ('\n', 2)
    } else if s[1] == 'f' {
        ('\u{c}', 2)
    } else if s[1] == 'r' {
        ('\r', 2)
    } else if s[1] == 'u' {
        ((hex_value(s[4]) * 16 + hex_value(s[5])) as u32 as char, 6)
    } else {
        (s[1], 2)
    }
}

/// The number that a hexadecimal digit stands for.
pub open spec fn hex_value(c: char) -> int {
    if text::is_digit(c) {
        c as u32 - 48
    } else {
        c as u32 - 87
    }
}

/// What a JSON reader takes from a string after its opening quote, up to the closing one.
pub open spec fn json_read(s: Seq<char>) -> Option<Seq<char>>
    decreases s.len(),
{
    if s.len() == 0 {
        None
    } else if s[0] == '"' {
        Some(Seq::empty())
    } else {
        let (c, n) = json_first(s);
        if n < s.len() {
            match json_read(s.skip(n)) {
                Some(rest) => Some(seq![c] + rest),
                None => None,
            }
        } else {
            None
        }
    }
}

proof fn lemma_json_read(s: Seq<char>)
    ensures
        json_read(text::expanded(s, json_escape()) + seq!['"']) == Some(s),
    decreases s.len(),
{
    let all = text::expanded(s, json_escape()) + seq!['"'];
    if s.len() == 0 {
        assert(all =~= seq!['"']);
        assert(s =~= Seq::<char>::empty());
    } else {
        let c = s.first();
        let code = json_char(c);
        let rest = text::expanded(s.drop_first(), json_escape()) + seq!['"'];
        text::lemma_expanded_first(s, json_escape());
        lemma_json_read(s.drop_first());
        assert(all =~= code + rest);
        assert(all.skip(code.len() as int) =~= rest);
        assert forall|i: int| 0 <= i < code.len() implies all[i] == #[trigger] code[i] by {}
        assert(all[0] == code[0]);
        if code.len() > 1 {
            assert(all[1] == code[1]);
        }
        if code.len() > 2 {
            assert(all[4] == code[4]);
            assert(all[5] == code[5]);
            let n = c as u32;
            assert(n < 32);
            assert(hex_value(hex_digit(n / 16)) == n / 16);
            assert(hex_value(hex_digit(n % 16)) == n % 16);
            assert(n / 16 * 16 + n % 16 == n);
            char_u32_cast(c, n);
        }
        assert(json_first(all) == (c, code.len() as int));
        assert(seq![c] + s.drop_first() =~= s);
    }
}

/// The opener reads the path that it was handed, whatever characters the path holds.
pub proof fn law_path_reads_back(path: Seq<char>)
    ensures
        json_text(path)[0] == '"',
        json_read(json_text(path).skip(1)) == Some(path),
{
    lemma_json_read(path);
    assert(json_text(path).skip(1) =~= text::expanded(path, json_escape()) + seq!['"']);
}

/// A path is written character by character: ordinary characters as they are, and two
/// paths put together as the contents of the one and of the other.
pub proof fn law_path_is_written_as_it_is(a: Seq<char>, b: Seq<char>)
    ensures
        json_text(a).len() >= 2,
        json_text(a).first() == '"',
        json_text(a).last() == '"',
        json_text(a + b) == json_text(a).drop_last() + json_text(b).drop_first(),
        (forall|i: int|
            0 <= i < a.len() ==> (#[trigger] a[i]) as u32 >= 32 && a[i] != '"' && a[i] != '\\')
            ==> json_text(a) == seq!['"'] + a + seq!['"'],
{
    let f = json_escape();
    text::law_expanded_piece_by_piece(a, b, ' ', f);
    assert(json_text(a + b) =~= json_text(a).drop_last() + json_text(b).drop_first());
    if forall|i: int|
        0 <= i < a.len() ==> (#[trigger] a[i]) as u32 >= 32 && a[i] != '"' && a[i] != '\\' {
        lemma_plain_path(a);
    }
}

proof fn lemma_plain_path(a: Seq<char>)
    requires
        forall|i: int|
            0 <= i < a.len() ==> (#[trigger] a[i]) as u32 >= 32 && a[i] != '"' && a[i] != '\\',
    ensures
        text::expanded(a, json_escape()) == a,
    decreases a.len(),
{
    if a.len() == 0 {
        assert(text::expanded(a, json_escape()) =~= a);
    } else {
        let init = a.drop_last();
        assert forall|i: int| 0 <= i < init.len() implies (#[trigger] init[i]) as u32 >= 32
            && init[i] != '"' && init[i] != '\\' by {
            assert(a[i] == init[i]);
        }
        lemma_plain_path(init);
        assert(a[a.len() - 1] == a.last());
        assert(json_char(a.last()) == seq![a.last()]);
        assert(init + seq![a.last()] =~= a);
    }
}

/// A quote, a backslash and a control character are written with a backslash before them,
/// as JSON has it.
pub proof fn law_special_characters_are_escaped(c: char)
    ensures
        json_text(seq!['"']) == seq!['"', '\\', '"', '"'],
        json_text(seq!['\\']) == seq!['"', '\\', '\\', '"'],
        (c as u32) < 32 ==> json_text(seq![c])[1] == '\\',
        (c as u32) < 32 ==> json_text(seq![c]).len() == 4 || json_text(seq![c]).len() == 8,
{
    let f = json_escape();
    text::law_expanded_piece_by_piece(Seq::empty(), Seq::empty(), '"', f);
    text::law_expanded_piece_by_piece(Seq::empty(), Seq::empty(), '\\', f);
    text::law_expanded_piece_by_piece(Seq::empty(), Seq::empty(), c, f);
    assert(json_text(seq!['"']) =~= seq!['"', '\\', '"', '"']);
    assert(json_text(seq!['\\']) =~= seq!['"', '\\', '\\', '"']);
    assert(json_text(seq![c]) == seq!['"'] + json_char(c) + seq!['"']);
}

/// The opener is handed the path, and what came of it is told with its error output.
pub proof fn law_opener_is_handed_the_path(
    path: &str,
    input: String,
    success: bool,
    errors: &str,
    bytes: &[u8],
    outcome: Result<(), String>,
    result: Result<(), String>,
)
    requires
        call_ensures(open_input, (path,), input),
        call_ensures(open_outcome, (success, errors), outcome),
        call_ensures(open_result, (success, bytes), result),
    ensures
        input@[0] == '"',
        json_read(input@.skip(1)) == Some(path@),
        outcome is Ok <==> success,
        !success ==> outcome->Err_0@ == errors@,
        result is Ok <==> success,
        !success ==> result->Err_0@ == text::lossy_text(bytes@),
{
    law_path_reads_back(path@);
}

} // verus!
