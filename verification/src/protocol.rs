//! The text frames that the relay pushes to connections.
//!
//! A frame is one command word, one space, and the payload.

use vstd::prelude::*;
use vstd::string::{StrSliceExecFns, StringExecFns};

verus! {

/// A frame addressed to a connection.
#[derive(Debug)]
pub struct Outbound {
    pub ws_id: usize,
    pub frame: String,
}

/// Mathematical value of an [`Outbound`].
pub struct OutboundView {
    pub ws_id: usize,
    pub frame: Seq<char>,
}

impl View for Outbound {
    type V = OutboundView;

    open spec fn view(&self) -> OutboundView {
        OutboundView { ws_id: self.ws_id, frame: self.frame@ }
    }
}

/// The frame made of `command`, a space and `payload`.
pub open spec fn framed(command: Seq<char>, payload: Seq<char>) -> Seq<char> {
    command + seq![' '] + payload
}

/// Builds the frame `command payload`.
pub fn frame(command: &str, payload: &str) -> (text: String)
    ensures
        text@ == framed(command@, payload@),
{
    let mut text = String::from_str(command);
    text.append(" ");
    text.append(payload);
    proof {
        reveal_strlit(" ");
        assert(" "@ =~= seq![' ']);
    }
    text
}

/// Whether `text` is a command word: it holds no space.
pub open spec fn is_command_word(text: Seq<char>) -> bool {
    forall|i: int| 0 <= i < text.len() ==> text[i] != ' '
}

/// Whether `text` parts at `at` into a command word and a payload: `at` is
/// the place of the first space of `text`.
pub open spec fn parts_at(text: Seq<char>, at: int) -> bool {
    &&& 0 <= at < text.len()
    &&& text[at] == ' '
    &&& is_command_word(text.take(at))
}

/// Parts a frame at its first space into the command word and the payload.
/// A text without a space is a command word without payload.
pub fn split_frame<'a>(text: &'a str) -> (parts: (&'a str, Option<&'a str>))
    ensures
        match parts.1 {
            Some(payload) => exists|at: int| #[trigger]
                parts_at(text@, at) && parts.0@ == text@.take(at) && payload@ == text@.skip(at + 1),
            None => is_command_word(text@) && parts.0@ == text@,
        },
{
    let len = text.unicode_len();
    let mut i: usize = 0;
    while i < len
        invariant
            len == text@.len(),
            i <= len,
            is_command_word(text@.take(i as int)),
        decreases len - i,
    {
        if text.get_char(i) == ' ' {
            let command = text.substring_char(0, i);
            let payload = text.substring_char(i + 1, len);
            proof {
                assert(text@.subrange(0, i as int) =~= text@.take(i as int));
                assert(text@.subrange(i + 1, len as int) =~= text@.skip(i + 1));
                assert(parts_at(text@, i as int));
            }
            return (command, Some(payload));
        }
        assert(is_command_word(text@.take(i + 1))) by {
            let head = text@.take(i as int);
            let grown = text@.take(i + 1);
            assert forall|j: int| 0 <= j < grown.len() implies grown[j] != ' ' by {
                if j < i {
                    assert(head[j] == grown[j]);
                }
            }
        }
        i += 1;
    }
    assert(text@.take(i as int) =~= text@);
    (text, None)
}

/// A frame parts into what it was made of: the first space of the frame of
/// a command word and a payload is the one that joins the two.
pub proof fn lemma_framed_parts(command: Seq<char>, payload: Seq<char>, at: int)
    requires
        is_command_word(command),
        parts_at(framed(command, payload), at),
    ensures
        at == command.len(),
        framed(command, payload).take(at) == command,
        framed(command, payload).skip(at + 1) == payload,
{
    let text = framed(command, payload);
    if at < command.len() {
        assert(text[at] == command[at]);
        assert(false);
    }
    if at > command.len() {
        assert(text.take(at)[command.len() as int] == ' ');
        assert(false);
    }
    assert(text.take(at) =~= command);
    assert(text.skip(at + 1) =~= payload);
}

/// The decimal digit `d` as a character; `'0'` for anything above nine.
pub open spec fn digit_char(d: nat) -> char {
    if d == 1 {
        '1'
    } else if d == 2 {
        '2'
    } else if d == 3 {
        '3'
    } else if d == 4 {
        '4'
    } else if d == 5 {
        '5'
    } else if d == 6 {
        '6'
    } else if d == 7 {
        '7'
    } else if d == 8 {
        '8'
    } else if d == 9 {
        '9'
    } else {
        '0'
    }
}

/// The decimal numeral of `n`, most significant digit first, without
/// leading zeros.
pub open spec fn decimal_text(n: nat) -> Seq<char>
    decreases n,
{
    if n < 10 {
        seq![digit_char(n)]
    } else {
        decimal_text(n / 10).push(digit_char(n % 10))
    }
}

fn digit_str(d: usize) -> (s: &'static str)
    requires
        d < 10,
    ensures
        s@ == seq![digit_char(d as nat)],
{
    proof {
        reveal_strlit("0");
        reveal_strlit("1");
        reveal_strlit("2");
        reveal_strlit("3");
        reveal_strlit("4");
        reveal_strlit("5");
        reveal_strlit("6");
        reveal_strlit("7");
        reveal_strlit("8");
        reveal_strlit("9");
    }
    let s = if d == 0 {
        "0"
    } else if d == 1 {
        "1"
    } else if d == 2 {
        "2"
    } else if d == 3 {
        "3"
    } else if d == 4 {
        "4"
    } else if d == 5 {
        "5"
    } else if d == 6 {
        "6"
    } else if d == 7 {
        "7"
    } else if d == 8 {
        "8"
    } else {
        "9"
    };
    assert(s@ =~= seq![digit_char(d as nat)]);
    s
}

/// Writes `n` as a decimal numeral.
pub fn decimal(n: usize) -> (text: String)
    ensures
        text@ == decimal_text(n as nat),
    decreases n,
{
    if n < 10 {
        String::from_str(digit_str(n))
    } else {
        let mut text = decimal(n / 10);
        text.append(digit_str(n % 10));
        assert(text@ =~= decimal_text(n as nat));
        text
    }
}

/// Command word of a chat message on an established conversation.
pub open spec fn message_command() -> Seq<char> {
    "/message"@
}

/// Command word of a first message from a stranger, which carries the
/// sender's profile along with the message.
pub open spec fn new_user_message_command() -> Seq<char> {
    "/new-user-message"@
}

/// Command word that tells a connection the id allocated to its user.
pub open spec fn update_user_id_command() -> Seq<char> {
    "/update-user-id"@
}

/// Command word of a profile sent on demand.
pub open spec fn get_user_data_command() -> Seq<char> {
    "/get-user-data"@
}

/// Command word of a display-name change.
pub open spec fn name_updated_command() -> Seq<char> {
    "/name-updated"@
}

/// Command word of an image-reference change.
pub open spec fn image_updated_command() -> Seq<char> {
    "/image-updated"@
}

/// `/message <content>`.
pub fn message_frame(content: &str) -> (text: String)
    ensures
        text@ == framed(message_command(), content@),
{
    frame("/message", content)
}

/// `/new-user-message <introduction>`, where the introduction is the
/// sender's profile and the message, bundled by the caller into one payload.
pub fn new_user_message_frame(introduction: &str) -> (text: String)
    ensures
        text@ == framed(new_user_message_command(), introduction@),
{
    frame("/new-user-message", introduction)
}

/// `/update-user-id <id>`, the id in decimal.
pub fn update_user_id_frame(user_id: usize) -> (text: String)
    ensures
        text@ == framed(update_user_id_command(), decimal_text(user_id as nat)),
{
    let digits = decimal(user_id);
    frame("/update-user-id", digits.as_str())
}

/// `/get-user-data <profile>`.
pub fn get_user_data_frame(profile: &str) -> (text: String)
    ensures
        text@ == framed(get_user_data_command(), profile@),
{
    frame("/get-user-data", profile)
}

/// `/name-updated <name>`.
pub fn name_updated_frame(name: &str) -> (text: String)
    ensures
        text@ == framed(name_updated_command(), name@),
{
    frame("/name-updated", name)
}

/// `/image-updated <link>`.
pub fn image_updated_frame(link: &str) -> (text: String)
    ensures
        text@ == framed(image_updated_command(), link@),
{
    frame("/image-updated", link)
}

} // verus!
