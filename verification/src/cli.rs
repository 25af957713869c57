//! What the command line asks for.

use crate::text::joined;
use vstd::prelude::*;

verus! {

use crate::codec::is_header_value;
use crate::text::ascii_lowered;

/// The code that the program ends with when it fails.
pub const RETURN_CODE_FAILURE: i32 = 1;

/// A pair of a key and a value, separated by `:`.
#[derive(Debug)]
pub struct KeyValue<K, V> {
    pub key: K,
    pub value: V,
}

impl<K: Clone, V: Clone> Clone for KeyValue<K, V> {
    /// A pair of clones.
    fn clone(&self) -> (copy: Self)
        ensures
            cloned(self.key, copy.key),
            cloned(self.value, copy.value),
    {
        KeyValue { key: self.key.clone(), value: self.value.clone() }
    }
}

/// The texts before and after the first delimiter.
pub open spec fn is_split(
    text: Seq<char>,
    delimiter: char,
    before: Seq<char>,
    after: Seq<char>,
) -> bool {
    &&& text == before.push(delimiter) + after
    &&& !before.contains(delimiter)
}

/// The text split at the first delimiter, if it has one.
///
/// Trusted: `str::splitn` with two parts gives the text before the first delimiter and the rest
/// behind it, or the text alone if there is none, and `itertools::Itertools::collect_tuple` makes
/// a pair of exactly two items.
#[verifier::external_body]
fn split_pair(text: &str, delimiter: char) -> (parts: Option<(&str, &str)>)
    ensures
        parts is Some <==> text@.contains(delimiter),
        parts matches Some((before, after)) ==> is_split(text@, delimiter, before@, after@),
{
    itertools::Itertools::collect_tuple(text.splitn(2, delimiter))
}

/// The character may stand in the name of an HTTP header.
pub open spec fn is_header_name_char(c: char) -> bool {
    let n = c as u32;
    ||| 33 <= n <= 39
    ||| n == 42 || n == 43 || n == 45 || n == 46
    ||| 48 <= n <= 57
    ||| 65 <= n <= 90
    ||| 94 <= n <= 122
    ||| n == 124 || n == 126
}

/// The text may be the name of an HTTP header.
pub open spec fn is_header_name(text: Seq<char>) -> bool {
    &&& 0 < text.len() <= 65535
    &&& forall|i: int| 0 <= i < text.len() ==> is_header_name_char(#[trigger] text[i])
}

/// The name of a header, in lower case.
///
/// Trusted: `http::header::HeaderName::from_str` takes the characters that may stand in a name,
/// up to 65535 of them and one at least, and turns upper case ASCII letters into lower case. Its
/// error says "invalid HTTP header name".
#[verifier::external_body]
fn header_name(text: &str) -> (result: Result<String, String>)
    ensures
        match result {
            Ok(name) => is_header_name(text@) && name@ == ascii_lowered(text@),
            Err(message) => !is_header_name(text@) && message@ == "invalid HTTP header name"@,
        },
{
    match text.parse::<http::header::HeaderName>() {
        Ok(name) => Ok(name.as_str().to_owned()),
        Err(error) => Err(error.to_string()),
    }
}

/// The value of a header, as bytes.
///
/// Trusted: `http::HeaderValue::from_str` takes the bytes of the text as they are if each of them
/// may stand in a header value. Its error says "failed to parse header value".
#[verifier::external_body]
fn header_value(text: &str) -> (result: Result<Vec<u8>, String>)
    ensures
        match result {
            Ok(value) => {
                &&& is_header_value(vstd::utf8::encode_utf8(text@))
                &&& value@ == vstd::utf8::encode_utf8(text@)
            },
            Err(message) => {
                &&& !is_header_value(vstd::utf8::encode_utf8(text@))
                &&& message@ == "failed to parse header value"@
            },
        },
{
    match text.parse::<http::HeaderValue>() {
        Ok(value) => Ok(value.as_bytes().to_vec()),
        Err(error) => Err(error.to_string()),
    }
}

impl<K, V> KeyValue<K, V> {
    /// The pair that a text stands for: `key` reads what stands before the first `:`, `value` the
    /// rest behind it.
    pub fn from_str<F, G>(text: &str, key: F, value: G) -> (result: Result<Self, String>) where
        F: Fn(&str) -> Result<K, String>,
        G: Fn(&str) -> Result<V, String>,

        requires
            forall|t: &str| key.requires((t,)),
            forall|t: &str| value.requires((t,)),
        ensures
            !text@.contains(':') ==> (result matches Err(message) && message@
                == "Invalid key value pair - expected 'KEY:VALUE' got '"@ + text@ + "'"@),
            text@.contains(':') ==> exists|k: &str, v: &str|
                {
                    &&& #[trigger] is_split(text@, ':', k@, v@)
                    &&& match result {
                        Ok(pair) => {
                            &&& key.ensures((k,), Ok(pair.key))
                            &&& value.ensures((v,), Ok(pair.value))
                        },
                        Err(message) => {
                            ||| key.ensures((k,), Err(message))
                            ||| value.ensures((v,), Err(message)) && exists|got: K|
                                key.ensures((k,), Ok(got))
                        },
                    }
                },
    {
        match split_pair(text, ':') {
            Some((k, v)) => {
                let key = match key(k) {
                    Ok(key) => key,
                    Err(message) => {
                        return Err(message);
                    },
                };
                let value = match value(v) {
                    Ok(value) => value,
                    Err(message) => {
                        return Err(message);
                    },
                };
                Ok(KeyValue { key, value })
            },
            None => {
                let message = joined("Invalid key value pair - expected 'KEY:VALUE' got '", text);
                Err(joined(message.as_str(), "'"))
            },
        }
    }
}

/// The header that a text of the command line stands for, or the message of the error if it
/// stands for none.
pub open spec fn is_header_pair(
    text: Seq<char>,
    result: Result<(Seq<char>, Seq<u8>), Seq<char>>,
) -> bool {
    if !text.contains(':') {
        result == Err::<(Seq<char>, Seq<u8>), Seq<char>>(
            "Invalid key value pair - expected 'KEY:VALUE' got '"@ + text + "'"@,
        )
    } else {
        exists|name: Seq<char>, value: Seq<char>| #[trigger]
            is_split(text, ':', name, value) && result == if !is_header_name(name) {
                Err::<(Seq<char>, Seq<u8>), Seq<char>>("invalid HTTP header name"@)
            } else if !is_header_value(vstd::utf8::encode_utf8(value)) {
                Err("failed to parse header value"@)
            } else {
                Ok((ascii_lowered(name), vstd::utf8::encode_utf8(value)))
            }
    }
}

/// The header that a text of the command line stands for.
pub fn parse_header(text: &str) -> (result: Result<KeyValue<String, Vec<u8>>, String>)
    ensures
        is_header_pair(
            text@,
            match result {
                Ok(pair) => Ok((pair.key@, pair.value@)),
                Err(message) => Err(message@),
            },
        ),
{
    let result = KeyValue::from_str(text, header_name, header_value);
    proof {
        if text@.contains(':') {
            let (k, v) = choose|k: &str, v: &str|
                {
                    &&& #[trigger] is_split(text@, ':', k@, v@)
                    &&& match result {
                        Ok(pair) => {
                            &&& header_name.ensures((k,), Ok(pair.key))
                            &&& header_value.ensures((v,), Ok(pair.value))
                        },
                        Err(message) => {
                            ||| header_name.ensures((k,), Err(message))
                            ||| header_value.ensures((v,), Err(message)) && exists|got: String|
                                header_name.ensures((k,), Ok(got))
                        },
                    }
                };
            assert(is_split(text@, ':', k@, v@));
        }
    }
    result
}

/// What a text of the command line stands for is decided by its first colon: what stands before
/// it is the name, in lower case, and all that stands behind it, further colons included, is the
/// value, byte by byte. The name is looked at before the value.
pub proof fn law_header_pair(
    text: Seq<char>,
    at: int,
    result: Result<(Seq<char>, Seq<u8>), Seq<char>>,
)
    requires
        is_header_pair(text, result),
        0 <= at < text.len(),
        text[at] == ':',
        forall|i: int| 0 <= i < at ==> text[i] != ':',
    ensures
        result is Ok <==> is_header_name(text.take(at)) && is_header_value(
            vstd::utf8::encode_utf8(text.skip(at + 1)),
        ),
        result matches Ok(pair) ==> {
            &&& pair.0 == ascii_lowered(text.take(at))
            &&& pair.1 == vstd::utf8::encode_utf8(text.skip(at + 1))
        },
        !is_header_name(text.take(at)) ==> result->Err_0 == "invalid HTTP header name"@,
        is_header_name(text.take(at)) && result is Err ==> result->Err_0
            == "failed to parse header value"@,
{
    let name = text.take(at);
    let value = text.skip(at + 1);
    assert(text =~= name.push(':') + value);
    assert(!name.contains(':')) by {
        if name.contains(':') {
            let i = name.index_of(':');
            assert(text[i] == ':');
        }
    }
    assert(is_split(text, ':', name, value));
    assert(text.contains(':'));
    let (n, v) = choose|n: Seq<char>, v: Seq<char>| #[trigger]
        is_split(text, ':', n, v) && result == if !is_header_name(n) {
            Err::<(Seq<char>, Seq<u8>), Seq<char>>("invalid HTTP header name"@)
        } else if !is_header_value(vstd::utf8::encode_utf8(v)) {
            Err("failed to parse header value"@)
        } else {
            Ok((ascii_lowered(n), vstd::utf8::encode_utf8(v)))
        };
    law_split_unique(text, ':', name, value, n, v);
}

/// A text without a colon stands for no header, and is named in the message.
pub proof fn law_no_header_pair(
    text: Seq<char>,
    result: Result<(Seq<char>, Seq<u8>), Seq<char>>,
)
    requires
        is_header_pair(text, result),
        forall|i: int| 0 <= i < text.len() ==> text[i] != ':',
    ensures
        result is Err,
        result->Err_0 == "Invalid key value pair - expected 'KEY:VALUE' got '"@ + text + "'"@,
{
    assert(!text.contains(':'));
}

/// There is only one way to split a text at its first delimiter.
pub proof fn law_split_unique(
    text: Seq<char>,
    delimiter: char,
    a: Seq<char>,
    b: Seq<char>,
    c: Seq<char>,
    d: Seq<char>,
)
    requires
        is_split(text, delimiter, a, b),
        is_split(text, delimiter, c, d),
    ensures
        a == c,
        b == d,
{
    assert(text[a.len() as int] == delimiter);
    assert(text[c.len() as int] == delimiter);
    if a.len() < c.len() {
        assert(c[a.len() as int] == text[a.len() as int]);
    }
    if c.len() < a.len() {
        assert(a[c.len() as int] == text[c.len() as int]);
    }
    assert forall|i: int| 0 <= i < a.len() implies a[i] == c[i] by {
        assert(a[i] == text[i]);
        assert(c[i] == text[i]);
    }
    assert(a =~= c);
    assert(text.len() == a.len() + 1 + b.len());
    assert(text.len() == c.len() + 1 + d.len());
    assert forall|i: int| 0 <= i < b.len() implies b[i] == d[i] by {
        assert(b[i] == text[a.len() + 1 + i]);
        assert(d[i] == text[c.len() + 1 + i]);
    }
    assert(b =~= d);
}

/// How work is to be scheduled.
#[derive(Debug, Clone, Copy, PartialEq, Eq, Structural)]
pub enum RuntimePlan {
    /// On as many threads as there are cores.
    Default,
    /// On the thread that starts it.
    CurrentThread,
    /// On the given number of threads.
    MultiThread { worker_threads: usize },
}

/// Plans the runtime: if the number of threads is not given, uses the default scheduler,
/// otherwise a scheduler with that number of threads, of which there has to be one.
pub fn get_runtime(num_threads: Option<usize>) -> (result: Result<RuntimePlan, String>)
    ensures
        match (num_threads, result) {
            (None, Ok(plan)) => plan == RuntimePlan::Default,
            (Some(n), Ok(plan)) => {
                &&& n > 0
                &&& n == 1 ==> plan == RuntimePlan::CurrentThread
                &&& n > 1 ==> plan == (RuntimePlan::MultiThread { worker_threads: n })
            },
            (Some(n), Err(message)) => {
                &&& n == 0
                &&& message@ == "Invalid num-threads: '0' must be greater than zero"@
            },
            (None, Err(_)) => false,
        },
{
    match num_threads {
        None => Ok(RuntimePlan::Default),
        Some(0) => Err("Invalid num-threads: '0' must be greater than zero".to_owned()),
        Some(1) => Ok(RuntimePlan::CurrentThread),
        Some(worker_threads) => Ok(RuntimePlan::MultiThread { worker_threads }),
    }
}

/// Why the environment file was not loaded.
#[derive(Debug, PartialEq, Eq)]
pub enum DotenvError {
    /// There is no such file.
    NotFound,
    /// Anything else, in words.
    Other(String),
}

/// What to report before the program is aborted because the environment file could not be
/// loaded; `None` if it goes on. That there is no such file is not an error: defaults apply.
pub fn load_dotenv(loaded: Result<(), DotenvError>) -> (report: Option<String>)
    ensures
        match loaded {
            Err(DotenvError::Other(e)) => {
                &&& report matches Some(message)
                &&& message@ == "FATAL Error loading config from: "@ + e@
            },
            _ => report is None,
        },
{
    match loaded {
        Ok(_) => None,
        Err(DotenvError::NotFound) => None,
        Err(DotenvError::Other(e)) => Some(joined("FATAL Error loading config from: ", e.as_str())),
    }
}

/// What a command works on.
#[derive(Debug, Clone, Copy, PartialEq, Eq, Structural)]
pub enum CommandKind {
    Database,
    Run,
    Router,
    Server,
    Operation,
    Sql,
    Catalog,
    Debug,
    Storage,
}

/// The command talks to a server.
pub open spec fn talks_to_server(kind: CommandKind) -> bool {
    match kind {
        CommandKind::Database => true,
        CommandKind::Router => true,
        CommandKind::Server => true,
        CommandKind::Operation => true,
        CommandKind::Sql => true,
        _ => false,
    }
}

impl CommandKind {
    /// Whether a connection to a server is to be opened for the command.
    pub fn connects(self) -> (connects: bool)
        ensures
            connects == talks_to_server(self),
            connects <==> self == CommandKind::Database || self == CommandKind::Router || self
                == CommandKind::Server || self == CommandKind::Operation || self
                == CommandKind::Sql,
    {
        match self {
            CommandKind::Database => true,
            CommandKind::Operation => true,
            CommandKind::Server => true,
            CommandKind::Router => true,
            CommandKind::Sql => true,
            CommandKind::Run => false,
            CommandKind::Storage => false,
            CommandKind::Catalog => false,
            CommandKind::Debug => false,
        }
    }

    /// Whether logs and traces are to be set up as configured; otherwise logs are kept simple.
    pub fn configures_tracing(self) -> (configures: bool)
        ensures
            configures == (self == CommandKind::Run),
    {
        match self {
            CommandKind::Run => true,
            _ => false,
        }
    }

    /// What to report when the command fails with the given error.
    pub fn failure(self, error: &str) -> (report: String)
        ensures
            report@ == if self == CommandKind::Server || self == CommandKind::Run {
                "Server command failed: "@ + error@
            } else {
                error@
            },
    {
        match self {
            CommandKind::Server => joined("Server command failed: ", error),
            CommandKind::Run => joined("Server command failed: ", error),
            _ => error.to_owned(),
        }
    }
}

} // verus!
