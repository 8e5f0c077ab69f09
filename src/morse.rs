//! Mapping text to Morse pulses, for the letters `a` and `b`.
use vstd::prelude::*;

verus! {

/// One Morse pulse.
#[derive(Debug, Clone, Copy, PartialEq, Eq, Structural)]
pub enum Pulse {
    Short,
    Long,
}

impl Pulse {
    /// The pulse as written: `.` for short, `_` for long.
    pub fn to_string(&self) -> (r: String)
        ensures
            r@ == match *self {
                Pulse::Short => "."@,
                Pulse::Long => "_"@,
            },
    {
        match self {
            Pulse::Short => String::from_str("."),
            Pulse::Long => String::from_str("_"),
        }
    }
}

/// The pulses of one letter.
pub type Letter = Vec<Pulse>;

/// The letters of a message.
pub type Message = Vec<Letter>;

/// The Morse code of `c`, for the letters that have one here (either case of `a` and `b`).
pub open spec fn letter_code(c: char) -> Option<Seq<Pulse>> {
    if c == 'A' || c == 'a' {
        Some(seq![Pulse::Short, Pulse::Long])
    } else if c == 'B' || c == 'b' {
        Some(seq![Pulse::Short, Pulse::Long, Pulse::Short, Pulse::Long])
    } else {
        None
    }
}

/// The codes of the characters of `s` that have one, in order; the others are skipped.
pub open spec fn message_code(s: Seq<char>) -> Seq<Seq<Pulse>>
    decreases s.len(),
{
    if s.len() == 0 {
        Seq::empty()
    } else {
        match letter_code(s.last()) {
            Some(code) => message_code(s.drop_last()).push(code),
            None => message_code(s.drop_last()),
        }
    }
}

/// The pulses of each letter of `m`.
pub open spec fn message_view(m: Seq<Letter>) -> Seq<Seq<Pulse>> {
    m.map_values(|l: Letter| l@)
}

/// Text that can be written in Morse code.
pub trait MorseCode {
    /// The characters of the text.
    spec fn text(&self) -> Seq<char>;

    /// The Morse code of each encodable character, in order.
    fn to_morse_code(&self) -> (r: Message)
        ensures
            message_view(r@) == message_code(self.text()),
    ;
}

impl MorseCode for String {
    open spec fn text(&self) -> Seq<char> {
        self@
    }

    fn to_morse_code(&self) -> (r: Message) {
        let s = self.as_str();
        let n = s.unicode_len();
        let mut msg: Message = Vec::new();
        let mut i: usize = 0;
        while i < n
            invariant
                n == s@.len(),
                s@ == self@,
                i <= n,
                message_view(msg@) == message_code(s@.take(i as int)),
            decreases n - i,
        {
            let c = s.get_char(i);
            assert(s@.take(i as int + 1).drop_last() =~= s@.take(i as int));
            if c == 'A' || c == 'a' {
                let code: Letter = vec![Pulse::Short, Pulse::Long];
                msg.push(code);
                assert(message_view(msg@) =~= message_code(s@.take(i as int + 1)));
            } else if c == 'B' || c == 'b' {
                let code: Letter = vec![Pulse::Short, Pulse::Long, Pulse::Short, Pulse::Long];
                msg.push(code);
                assert(message_view(msg@) =~= message_code(s@.take(i as int + 1)));
            }
            i = i + 1;
        }
        assert(s@.take(n as int) =~= s@);
        msg
    }
}

} // verus!
