//! How a response reads on the terminal.

use crate::app::{ActionResponse, ActionResponseType, Response};
use crate::db::{Entry, SavedCrl};
use crate::text::{i64_to_string, signed_decimal};
use vstd::prelude::*;
use vstd::string::*;

verus! {

/// Whether `c` is white space: a character with the Unicode property
/// White_Space.
pub open spec fn is_whitespace(c: char) -> bool {
    ||| '\u{9}' <= c <= '\u{d}'
    ||| c == ' '
    ||| c == '\u{85}'
    ||| c == '\u{a0}'
    ||| c == '\u{1680}'
    ||| '\u{2000}' <= c <= '\u{200a}'
    ||| c == '\u{2028}'
    ||| c == '\u{2029}'
    ||| c == '\u{202f}'
    ||| c == '\u{205f}'
    ||| c == '\u{3000}'
}

/// `s` without the white space that it begins with.
pub open spec fn trim_start(s: Seq<char>) -> Seq<char>
    decreases s.len(),
{
    if s.len() > 0 && is_whitespace(s[0]) {
        trim_start(s.drop_first())
    } else {
        s
    }
}

/// `s` without the white space that it ends with.
pub open spec fn trim_end(s: Seq<char>) -> Seq<char>
    decreases s.len(),
{
    if s.len() > 0 && is_whitespace(s.last()) {
        trim_end(s.drop_last())
    } else {
        s
    }
}

/// `s` without the white space around it.
pub open spec fn trimmed(s: Seq<char>) -> Seq<char> {
    trim_end(trim_start(s))
}

fn whitespace(c: char) -> (r: bool)
    ensures
        r == is_whitespace(c),
{
    ('\u{9}' <= c && c <= '\u{d}') || c == ' ' || c == '\u{85}' || c == '\u{a0}' || c
        == '\u{1680}' || ('\u{2000}' <= c && c <= '\u{200a}') || c == '\u{2028}' || c
        == '\u{2029}' || c == '\u{202f}' || c == '\u{205f}' || c == '\u{3000}'
}

/// Cuts the white space off both ends of `s`.
pub fn trim(s: &str) -> (r: &str)
    ensures
        r@ == trimmed(s@),
{
    let n = s.unicode_len();
    let mut from: usize = 0;
    assert(s@.skip(0) =~= s@);
    while from < n && whitespace(s.get_char(from))
        invariant
            n == s@.len(),
            from <= n,
            trim_start(s@) == trim_start(s@.skip(from as int)),
        decreases n - from,
    {
        assert(s@.skip(from as int).drop_first() =~= s@.skip(from + 1));
        assert(s@.skip(from as int)[0] == s@[from as int]);
        from += 1;
    }
    let ghost tail = s@.skip(from as int);
    assert(trim_start(s@) == tail) by {
        if from < n {
            assert(tail[0] == s@[from as int]);
        }
    }
    let mut to: usize = n;
    while from < to && whitespace(s.get_char(to - 1))
        invariant
            n == s@.len(),
            from <= to <= n,
            tail == s@.skip(from as int),
            trim_end(tail) == trim_end(s@.subrange(from as int, to as int)),
        decreases to,
    {
        assert(s@.subrange(from as int, to as int).drop_last() =~= s@.subrange(
            from as int,
            to - 1,
        ));
        assert(s@.subrange(from as int, to as int).last() == s@[to - 1]);
        to -= 1;
    }
    assert(trim_end(tail) == s@.subrange(from as int, to as int)) by {
        if from < to {
            assert(s@.subrange(from as int, to as int).last() == s@[to - 1]);
        }
    }
    s.substring_char(from, to)
}

/// The mark that goes before a response of the kind `kind`.
pub open spec fn marker(kind: ActionResponseType) -> Seq<char> {
    match kind {
        ActionResponseType::Error => "❌ "@,
        ActionResponseType::Success => "👍 "@,
        ActionResponseType::Content => Seq::<char>::empty(),
    }
}

/// The line of the message, where there is a message.
pub open spec fn message_line(message: Seq<char>) -> Seq<char> {
    if message.len() > 0 {
        message + "\n"@
    } else {
        message
    }
}

/// The line of one entry: its id and its text without the white space around it.
pub open spec fn entry_line(entry: Entry) -> Seq<char> {
    signed_decimal(entry.id) + " "@ + trimmed(entry.text) + "\n"@
}

/// The lines of the entries `s`, in their order.
pub open spec fn entry_lines(s: Seq<Entry>) -> Seq<char>
    decreases s.len(),
{
    if s.len() == 0 {
        Seq::<char>::empty()
    } else {
        entry_lines(s.drop_last()) + entry_line(s.last())
    }
}

/// What the terminal shows of a response: the mark of its kind, its message,
/// and, where it is content, one line for each entry.
pub open spec fn displayed(response: Response) -> Seq<char> {
    marker(response.kind) + message_line(response.message) + (match response.crls {
        Some(s) => if response.kind == ActionResponseType::Content {
            entry_lines(s)
        } else {
            Seq::<char>::empty()
        },
        None => Seq::<char>::empty(),
    })
}

fn display_line(row: &SavedCrl) -> (line: String)
    ensures
        line@ == entry_line(row@),
{
    let line = i64_to_string(row.id).concat(" ").concat(trim(row.crl.text.as_str())).concat("\n");
    assert(line@ =~= entry_line(row@));
    line
}

/// The text that shows `res` on the terminal.
pub fn display_action_response(res: &ActionResponse) -> (out: String)
    ensures
        out@ == displayed(res@),
{
    let mut out = match res._type {
        ActionResponseType::Error => String::from_str("❌ "),
        ActionResponseType::Success => String::from_str("👍 "),
        ActionResponseType::Content => String::new(),
    };
    assert(out@ == marker(res._type));
    if !res.message.as_str().is_empty() {
        out.append(res.message.as_str());
        out.append("\n");
    }
    assert(out@ =~= marker(res._type) + message_line(res.message@));
    if res._type == ActionResponseType::Content {
        match &res.crls {
            Some(crls) => {
                let ghost head = out@;
                let ghost all = res@.crls.unwrap();
                let mut i: usize = 0;
                while i < crls.len()
                    invariant
                        i <= crls@.len(),
                        all == crate::db::entries(crls@),
                        out@ == head + entry_lines(all.take(i as int)),
                    decreases crls@.len() - i,
                {
                    let line = display_line(&crls[i]);
                    out.append(line.as_str());
                    proof {
                        assert(all.take(i + 1).drop_last() =~= all.take(i as int));
                        assert(all.take(i + 1).last() == crls@[i as int]@);
                        assert(out@ =~= head + entry_lines(all.take(i + 1)));
                    }
                    i += 1;
                }
                assert(all.take(i as int) =~= all);
            },
            None => {
                assert(out@ =~= displayed(res@));
            },
        }
    } else {
        assert(out@ =~= displayed(res@));
    }
    out
}

} // verus!
