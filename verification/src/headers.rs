//! HTTP header names and values, and the header lists that providers send.
use reqwest::header::{HeaderName, HeaderValue};
use vstd::prelude::*;
use vstd::string::*;

use crate::error::ProviderError;
use crate::text::same_text;

verus! {

// ---------------------------------------------------------------------------
// Names and values
// ---------------------------------------------------------------------------

/// The punctuation that a header name may hold.
pub open spec fn name_mark(c: char) -> bool {
    c == '!' || c == '#' || c == '$' || c == '%' || c == '&' || c == '\'' || c == '*' || c == '+'
        || c == '-' || c == '.' || c == '^' || c == '_' || c == '`' || c == '|' || c == '~'
}

/// A character that a header name may hold: an ASCII letter or digit, or one
/// of the marks.
pub open spec fn name_char(c: char) -> bool {
    'a' <= c <= 'z' || 'A' <= c <= 'Z' || '0' <= c <= '9' || name_mark(c)
}

/// Whether a text is a header name.
pub open spec fn is_header_name(name: Seq<char>) -> bool {
    0 < name.len() <= 65535 && forall|i: int| 0 <= i < name.len() ==> name_char(#[trigger] name[i])
}

/// An ASCII capital as its small letter; anything else as it is.
pub open spec fn small(c: char) -> char {
    if 'A' <= c <= 'Z' {
        (c as u32 + 32) as char
    } else {
        c
    }
}

/// The text in small ASCII letters.
pub open spec fn smalls(text: Seq<char>) -> Seq<char> {
    Seq::new(text.len(), |i: int| small(text[i]))
}

/// Whether a text is a header value: no control character but the tab.
pub open spec fn is_header_value(value: Seq<char>) -> bool {
    forall|i: int|
        0 <= i < value.len() ==> (#[trigger] value[i]) == '\t' || (value[i] as u32) >= 32
            && (value[i] as u32) != 127
}

/// Calls `HeaderName::from_bytes` on the text's bytes: it accepts exactly the
/// header names, and holds them in small letters. The error has one message.
#[verifier::external_body]
pub(crate) fn header_name(name: &str) -> (result: Result<String, String>)
    ensures
        match result {
            Ok(text) => is_header_name(name@) && text@ == smalls(name@),
            Err(message) => !is_header_name(name@) && message@ == "invalid HTTP header name"@,
        },
{
    match HeaderName::from_bytes(name.as_bytes()) {
        Ok(name) => Ok(name.as_str().to_owned()),
        Err(e) => Err(e.to_string()),
    }
}

/// Calls `HeaderValue::from_str`: it accepts exactly the header values. The
/// error has one message.
#[verifier::external_body]
pub(crate) fn header_value(value: &str) -> (result: Result<(), String>)
    ensures
        match result {
            Ok(_) => is_header_value(value@),
            Err(message) => !is_header_value(value@) && message@
                == "failed to parse header value"@,
        },
{
    match HeaderValue::from_str(value) {
        Ok(_) => Ok(()),
        Err(e) => Err(e.to_string()),
    }
}

// ---------------------------------------------------------------------------
// Lists
// ---------------------------------------------------------------------------

/// The names and values of a header list.
pub open spec fn header_texts(headers: Seq<(String, String)>) -> Seq<(Seq<char>, Seq<char>)> {
    Seq::new(headers.len(), |i: int| (headers[i].0@, headers[i].1@))
}

/// The first place of a name, or the length.
pub open spec fn header_place(headers: Seq<(Seq<char>, Seq<char>)>, name: Seq<char>, i: int) -> int
    decreases headers.len() - i,
{
    if i < 0 || i >= headers.len() || headers[i].0 == name {
        i
    } else {
        header_place(headers, name, i + 1)
    }
}

/// The headers with one set: in its place where it is there, else at the end.
pub open spec fn with_header(
    headers: Seq<(Seq<char>, Seq<char>)>,
    name: Seq<char>,
    value: Seq<char>,
) -> Seq<(Seq<char>, Seq<char>)> {
    let at = header_place(headers, name, 0);
    if at < headers.len() {
        headers.update(at, (name, value))
    } else {
        headers.push((name, value))
    }
}

/// The headers of configured names and values, or the complaint about the
/// first that is none. Names are held in small letters, and a later value for
/// a name replaces an earlier one.
pub open spec fn configured(defaults: Seq<(Seq<char>, Seq<char>)>) -> Result<
    Seq<(Seq<char>, Seq<char>)>,
    Seq<char>,
>
    decreases defaults.len(),
{
    if defaults.len() == 0 {
        Ok(seq![])
    } else {
        match configured(defaults.drop_last()) {
            Err(message) => Err(message),
            Ok(before) => {
                let (name, value) = defaults.last();
                if !is_header_name(name) {
                    Err("invalid header name: "@ + "invalid HTTP header name"@)
                } else if !is_header_value(value) {
                    Err("invalid header value: "@ + "failed to parse header value"@)
                } else {
                    Ok(with_header(before, smalls(name), value))
                }
            },
        }
    }
}

/// Sets a header: in its place where it is there, else at the end.
pub fn set_header(headers: &mut Vec<(String, String)>, name: String, value: String)
    ensures
        header_texts(final(headers)@) == with_header(header_texts(old(headers)@), name@, value@),
{
    let ghost before = header_texts(headers@);
    let ghost pair = (name@, value@);
    let mut i: usize = 0;
    while i < headers.len()
        invariant
            i <= headers@.len(),
            before == header_texts(headers@),
            before == header_texts(old(headers)@),
            header_place(before, name@, 0) == header_place(before, name@, i as int),
            pair == (name@, value@),
        decreases headers.len() - i,
    {
        assert(before[i as int].0 == headers@[i as int].0@);
        if same_text(headers[i].0.as_str(), name.as_str()) {
            headers.set(i, (name, value));
            assert(header_texts(headers@) =~= before.update(i as int, pair));
            return;
        }
        i = i + 1;
    }
    headers.push((name, value));
    assert(header_texts(headers@) =~= before.push(pair));
}

/// Adds a header at the end, whatever is there.
pub(crate) fn add_header(headers: &mut Vec<(String, String)>, name: &str, value: &str)
    ensures
        header_texts(final(headers)@) == header_texts(old(headers)@).push((name@, value@)),
{
    headers.push((name.to_owned(), value.to_owned()));
    assert(header_texts(headers@) =~= header_texts(old(headers)@).push((name@, value@)));
}

/// Adds headers at the end, in order.
pub(crate) fn add_headers(headers: &mut Vec<(String, String)>, more: &Vec<(String, String)>)
    ensures
        header_texts(final(headers)@) == header_texts(old(headers)@) + header_texts(more@),
{
    let ghost before = header_texts(headers@);
    let ghost all = header_texts(more@);
    let mut i: usize = 0;
    assert(before + all.take(0) =~= before);
    while i < more.len()
        invariant
            i <= more@.len(),
            all == header_texts(more@),
            header_texts(headers@) == before + all.take(i as int),
        decreases more.len() - i,
    {
        add_header(headers, more[i].0.as_str(), more[i].1.as_str());
        i = i + 1;
        assert(before + all.take(i as int) =~= (before + all.take(i - 1)).push(all[i - 1]));
    }
    assert(all.take(i as int) =~= all);
}

/// Checks configured headers.
pub fn configure(defaults: &Vec<(String, String)>) -> (result: Result<
    Vec<(String, String)>,
    ProviderError,
>)
    ensures
        match configured(header_texts(defaults@)) {
            Ok(wanted) => match result {
                Ok(headers) => header_texts(headers@) == wanted,
                Err(_) => false,
            },
            Err(message) => match result {
                Err(ProviderError::Encode(text)) => text@ == message,
                _ => false,
            },
        },
{
    let ghost all = header_texts(defaults@);
    let mut headers: Vec<(String, String)> = Vec::new();
    let mut i: usize = 0;
    assert(header_texts(headers@) =~= seq![]);
    while i < defaults.len()
        invariant
            i <= defaults@.len(),
            all == header_texts(defaults@),
            configured(all.take(i as int)) == Ok::<Seq<(Seq<char>, Seq<char>)>, Seq<char>>(
                header_texts(headers@),
            ),
        decreases defaults.len() - i,
    {
        proof {
            assert(all.take(i + 1).drop_last() =~= all.take(i as int));
            assert(all.take(i + 1).last() == (defaults@[i as int].0@, defaults@[i as int].1@));
        }
        let name = match header_name(defaults[i].0.as_str()) {
            Ok(name) => name,
            Err(message) => {
                proof {
                    lemma_first_complaint(all, i + 1);
                }
                let mut text = "invalid header name: ".to_owned();
                text.append(message.as_str());
                return Err(ProviderError::Encode(text));
            },
        };
        if let Err(message) = header_value(defaults[i].1.as_str()) {
            proof {
                lemma_first_complaint(all, i + 1);
            }
            let mut text = "invalid header value: ".to_owned();
            text.append(message.as_str());
            return Err(ProviderError::Encode(text));
        }
        set_header(&mut headers, name, defaults[i].1.clone());
        i = i + 1;
    }
    assert(all.take(i as int) =~= all);
    Ok(headers)
}

proof fn lemma_first_complaint(defaults: Seq<(Seq<char>, Seq<char>)>, n: int)
    requires
        0 <= n <= defaults.len(),
        configured(defaults.take(n)) is Err,
    ensures
        configured(defaults) == configured(defaults.take(n)),
    decreases defaults.len() - n,
{
    if n == defaults.len() {
        assert(defaults.take(n) =~= defaults);
    } else {
        assert(defaults.take(n + 1).drop_last() =~= defaults.take(n));
        lemma_first_complaint(defaults, n + 1);
    }
}

} // verus!
