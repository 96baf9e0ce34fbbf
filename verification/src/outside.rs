//! What the library takes from the crates `uuid`, `url`, `form_urlencoded` and `toml`, with the
//! contracts that stand for it.

use crate::socket_url::SocketUrl;
use vstd::prelude::*;

verus! {

/// The hexadecimal digit of `value` at `index`, counted from the most significant of the 32.
pub open spec fn nibble(value: u128, index: int) -> int {
    (value as int / vstd::arithmetic::power::pow(16, (31 - index) as nat)) % 16
}

/// The character of a hexadecimal digit, in small letters.
pub open spec fn hex_char(n: int) -> char {
    if n < 10 {
        ((n + 48) as u32) as char
    } else {
        ((n + 87) as u32) as char
    }
}

/// The hexadecimal digits of `value` from index `from` up to index `to`.
pub open spec fn hex_digits(value: u128, from: int, to: int) -> Seq<char> {
    Seq::new((to - from) as nat, |i: int| hex_char(nibble(value, from + i)))
}

/// The hyphenated text of a UUID: 8, 4, 4, 4 and 12 digits in small letters.
pub open spec fn uuid_text(value: u128) -> Seq<char> {
    hex_digits(value, 0, 8) + seq!['-'] + hex_digits(value, 8, 12) + seq!['-'] + hex_digits(
        value,
        12,
        16,
    ) + seq!['-'] + hex_digits(value, 16, 20) + seq!['-'] + hex_digits(value, 20, 32)
}

/// Whether the version digit of a UUID is 4 and its variant is that of RFC 9562.
pub open spec fn is_version_4(value: u128) -> bool {
    &&& nibble(value, 12) == 4
    &&& 8 <= nibble(value, 16) <= 11
}

/// Whether the form syntax leaves a byte as it is.
pub open spec fn form_unchanged(b: u8) -> bool {
    ||| b == 0x2a || b == 0x2d || b == 0x2e || b == 0x5f
    ||| 0x30 <= b <= 0x39
    ||| 0x41 <= b <= 0x5a
    ||| 0x61 <= b <= 0x7a
}

/// The character of a hexadecimal digit, in capitals.
pub open spec fn hex_capital(n: int) -> char {
    if n < 10 {
        ((n + 48) as u32) as char
    } else {
        ((n + 55) as u32) as char
    }
}

/// A byte in the form syntax: unchanged, a plus for a space, or a percent sign and two digits.
pub open spec fn form_byte(b: u8) -> Seq<char> {
    if form_unchanged(b) {
        seq![b as char]
    } else if b == 0x20 {
        seq!['+']
    } else {
        seq!['%', hex_capital(b as int / 16), hex_capital(b as int % 16)]
    }
}

/// Bytes in the form syntax.
pub open spec fn form_bytes(bytes: Seq<u8>) -> Seq<char>
    decreases bytes.len(),
{
    if bytes.len() == 0 {
        seq![]
    } else {
        form_byte(bytes[0]) + form_bytes(bytes.drop_first())
    }
}

/// A text in the form syntax: its UTF-8 bytes, each encoded.
pub open spec fn form_text(s: Seq<char>) -> Seq<char> {
    form_bytes(vstd::utf8::encode_utf8(s))
}

/// `query` with one more pair, behind an ampersand unless it is the first.
pub open spec fn form_append(query: Seq<char>, name: Seq<char>, value: Seq<char>) -> Seq<char> {
    (if query.len() == 0 {
        query
    } else {
        query.push('&')
    }) + form_text(name) + seq!['='] + form_text(value)
}

/// Pairs written as a query.
pub open spec fn form_query(pairs: Seq<(Seq<char>, Seq<char>)>) -> Seq<char>
    decreases pairs.len(),
{
    if pairs.len() == 0 {
        seq![]
    } else {
        form_append(form_query(pairs.drop_last()), pairs.last().0, pairs.last().1)
    }
}

/// Whether a query of a WebSocket URL holds a character as it is.
pub open spec fn query_unchanged(c: char) -> bool {
    '!' <= c <= '~' && c != '"' && c != '#' && c != '<' && c != '>' && c != '\''
}

/// Bytes as percent signs with two digits each.
pub open spec fn percent_bytes(bytes: Seq<u8>) -> Seq<char>
    decreases bytes.len(),
{
    if bytes.len() == 0 {
        seq![]
    } else {
        percent_bytes(bytes.drop_last()) + seq![
            '%',
            hex_capital(bytes.last() as int / 16),
            hex_capital(bytes.last() as int % 16),
        ]
    }
}

/// A text as it stands in the query of a WebSocket URL: a character stays, or its UTF-8 bytes are
/// percent-encoded.
pub open spec fn query_encoded(s: Seq<char>) -> Seq<char>
    decreases s.len(),
{
    if s.len() == 0 {
        seq![]
    } else {
        query_encoded(s.drop_last()) + if query_unchanged(s.last()) {
            seq![s.last()]
        } else {
            percent_bytes(vstd::utf8::encode_utf8(seq![s.last()]))
        }
    }
}

/// Whether a character is a hexadecimal digit.
pub open spec fn is_hex(c: char) -> bool {
    '0' <= c <= '9' || 'A' <= c <= 'F' || 'a' <= c <= 'f'
}

/// Whether a percent-encoded byte stands at an index of a text.
pub open spec fn percent_at(s: Seq<char>, i: int) -> bool {
    0 <= i && i + 2 < s.len() && s[i] == '%' && is_hex(s[i + 1]) && is_hex(s[i + 2])
}

/// Whether a text stands for itself as the value of a pair: it holds no ampersand, no plus sign and
/// no percent-encoded byte.
pub open spec fn reads_as_itself(s: Seq<char>) -> bool {
    &&& !s.contains('&')
    &&& !s.contains('+')
    &&& forall|i: int| !#[trigger] percent_at(s, i)
}

/// Pairs written as a query of a WebSocket URL without a thought for the form syntax.
pub open spec fn raw_query(pairs: Seq<(Seq<char>, Seq<char>)>) -> Seq<char>
    decreases pairs.len(),
{
    if pairs.len() == 0 {
        seq![]
    } else {
        (if pairs.len() == 1 {
            seq![]
        } else {
            raw_query(pairs.drop_last()).push('&')
        }) + query_encoded(pairs.last().0) + seq!['='] + query_encoded(pairs.last().1)
    }
}

/// Whether names and values stand for themselves, and no name holds an equals sign.
pub open spec fn raw_pairs(pairs: Seq<(Seq<char>, Seq<char>)>) -> bool {
    forall|i: int|
        0 <= i < pairs.len() ==> reads_as_itself((#[trigger] pairs[i]).0) && reads_as_itself(
            pairs[i].1,
        ) && !pairs[i].0.contains('=')
}

/// Whether a character stands for itself in the name of a pair, whichever syntax is used.
pub open spec fn form_unchanged_char(c: char) -> bool {
    ||| c == '*' || c == '-' || c == '.' || c == '_'
    ||| '0' <= c <= '9'
    ||| 'A' <= c <= 'Z'
    ||| 'a' <= c <= 'z'
}

/// Whether `query` begins with these pairs, and has `rest` behind them.
pub open spec fn begins_with(
    query: Seq<char>,
    pairs: Seq<(Seq<char>, Seq<char>)>,
    rest: Seq<char>,
) -> bool {
    raw_pairs(pairs) && query == raw_query(pairs) + seq!['&'] + rest
}

/// Whether `query` holds these pairs, and then one of this name, whose value is written `value`.
pub open spec fn ends_with(
    query: Seq<char>,
    pairs: Seq<(Seq<char>, Seq<char>)>,
    name: Seq<char>,
    value: Seq<char>,
) -> bool {
    &&& begins_with(query, pairs, name + seq!['='] + value)
    &&& forall|i: int| 0 <= i < name.len() ==> form_unchanged_char(#[trigger] name[i])
    &&& !value.contains('&')
}

/// The pairs that `form_urlencoded::parse` reads from a query.
pub uninterp spec fn form_parsed(query: Seq<char>) -> Seq<(Seq<char>, Seq<char>)>;

/// Pairs of strings as pairs of texts.
pub open spec fn pair_texts(pairs: Seq<(String, String)>) -> Seq<(Seq<char>, Seq<char>)> {
    pairs.map_values(|p: (String, String)| (p.0@, p.1@))
}

/// What a URL holds, part by part.
#[verifier::ext_equal]
pub struct UrlParts {
    pub scheme: Seq<char>,
    pub authority: Seq<char>,
    pub host: Option<Seq<char>>,
    pub port: Option<u16>,
    pub path: Seq<char>,
    pub query: Option<Seq<char>>,
    pub fragment: Option<Seq<char>>,
}

/// Whether a text can stand between the slashes and the path of a URL.
pub open spec fn plain_authority(s: Seq<char>) -> bool {
    &&& s.len() > 0
    &&& forall|i: int|
        0 <= i < s.len() ==> {
            let c = #[trigger] s[i];
            c != '/' && c != '?' && c != '#' && c != '\\' && c != '\t' && c != '\n' && c != '\r'
        }
}

/// Whether a URL is as one that was parsed: its host, if any, can stand between the slashes and the
/// path; and a WebSocket URL has a port and a host, which WebSocket URLs hold as it is.
pub open spec fn well_formed(url: UrlParts) -> bool {
    &&& match url.host {
        Some(host) => plain_authority(host),
        None => true,
    }
    &&& url.scheme == "ws"@ || url.scheme == "wss"@ ==> {
        &&& url.host is Some
        &&& url.port is Some
        &&& kept_host(url.host->0)
        &&& given_host(url.host->0)
    }
}

/// Whether a text is one or more small ASCII letters.
pub open spec fn small_word(s: Seq<char>) -> bool {
    &&& s.len() > 0
    &&& forall|i: int| 0 <= i < s.len() ==> 'a' <= #[trigger] s[i] <= 'z'
}

/// Whether a host name can hold a character: it is a visible ASCII character, but no capital and
/// none that means something in a URL.
pub open spec fn host_char(c: char) -> bool {
    &&& '!' <= c <= '~' && !('A' <= c <= 'Z')
    &&& c != '%' && c != '#' && c != '/' && c != ':' && c != '<' && c != '>' && c != '?'
    &&& c != '@' && c != '[' && c != '\\' && c != ']' && c != '^' && c != '|'
}

/// Whether a label of a host begins at an index.
pub open spec fn label_at(s: Seq<char>, i: int) -> bool {
    0 <= i < s.len() && (i == 0 || s[i - 1] == '.')
}

/// Whether a label is a number, in decimal or in hexadecimal.
pub open spec fn number_label(s: Seq<char>) -> bool {
    ||| forall|i: int| 0 <= i < s.len() ==> '0' <= #[trigger] s[i] <= '9'
    ||| s.len() >= 2 && s[0] == '0' && s[1] == 'x' && forall|i: int|
        2 <= i < s.len() ==> is_hex(#[trigger] s[i])
}

/// Whether the last label of a host is a number. A dot at the end is passed over.
pub open spec fn ends_in_number(s: Seq<char>) -> bool {
    let t = if s.len() > 0 && s.last() == '.' {
        s.drop_last()
    } else {
        s
    };
    exists|i: int| #[trigger] label_at(t, i) && !t.skip(i).contains('.') && number_label(t.skip(i))
}

/// Whether a text is a host name as it stands in WebSocket URLs, and no IPv4 address.
pub open spec fn host_name(s: Seq<char>) -> bool {
    &&& s.len() > 0
    &&& forall|i: int| 0 <= i < s.len() ==> host_char(#[trigger] s[i])
    &&& !ends_in_number(s)
}

/// Whether a label that stands for other characters begins at an index of a host name.
pub open spec fn punycode_at(s: Seq<char>, i: int) -> bool {
    &&& label_at(s, i)
    &&& i + 3 < s.len()
    &&& s[i] == 'x' && s[i + 1] == 'n' && s[i + 2] == '-' && s[i + 3] == '-'
}

/// The text of an IPv4 address.
pub open spec fn dotted(a: u8, b: u8, c: u8, d: u8) -> Seq<char> {
    crate::text::decimal(a as nat) + seq!['.'] + crate::text::decimal(b as nat) + seq!['.']
        + crate::text::decimal(c as nat) + seq!['.'] + crate::text::decimal(d as nat)
}

/// Whether a text is an IPv4 address.
pub open spec fn ipv4_host(s: Seq<char>) -> bool {
    exists|a: u8, b: u8, c: u8, d: u8| s == #[trigger] dotted(a, b, c, d)
}

/// Whether a text is the host of the WebSocket URL that `written` writes.
pub open spec fn host_of(written: Seq<char>, s: Seq<char>) -> bool {
    match url_parsed(written) {
        Ok(url) => (url.scheme == "ws"@ || url.scheme == "wss"@) && url.host == Some(s),
        Err(_) => false,
    }
}

/// Whether some WebSocket URL has a host.
pub open spec fn given_host(s: Seq<char>) -> bool {
    exists|written: Seq<char>| #[trigger] host_of(written, s)
}

/// Whether a text is an IPv6 address as it stands in WebSocket URLs.
pub open spec fn ipv6_host(s: Seq<char>) -> bool {
    plain_authority(s) && s[0] == '[' && given_host(s)
}

/// Whether a WebSocket URL, if there is one, holds a host as it is: a host name in small letters or
/// an address.
pub open spec fn kept_host(s: Seq<char>) -> bool {
    host_name(s) || ipv4_host(s) || ipv6_host(s)
}

/// How long a host may be so that each label that stands for other characters is surely decoded.
pub const SURE_HOST_LENGTH: usize = 2000;

/// Whether there surely is a WebSocket URL with a host. A host name with labels that stand for other
/// characters is that of some WebSocket URL already, and not too long.
pub open spec fn plain_host(s: Seq<char>) -> bool {
    &&& kept_host(s)
    &&& host_name(s) ==> (forall|i: int| !#[trigger] punycode_at(s, i)) || (given_host(s) && s.len()
        <= SURE_HOST_LENGTH)
}

/// The usual port of a WebSocket scheme.
pub open spec fn usual_port(scheme: Seq<char>) -> u16 {
    if scheme == "ws"@ {
        80
    } else {
        443
    }
}

/// What stands between the scheme and the path of a WebSocket URL: the usual port is left out.
pub open spec fn authority_text(scheme: Seq<char>, host: Seq<char>, port: u16) -> Seq<char> {
    "://"@ + host + if port == usual_port(scheme) {
        seq![]
    } else {
        ":"@ + crate::text::decimal(port as nat)
    }
}

/// `s` without the control characters and spaces at its end.
pub open spec fn without_tail(s: Seq<char>) -> Seq<char>
    decreases s.len(),
{
    if s.len() > 0 && s.last() <= ' ' {
        without_tail(s.drop_last())
    } else {
        s
    }
}

/// Whether a character is passed over wherever it stands in the text of a URL.
pub open spec fn passed_over(c: char) -> bool {
    c == '\t' || c == '\n' || c == '\r'
}

/// `s` without the characters that are passed over.
pub open spec fn without_passed_over(s: Seq<char>) -> Seq<char>
    decreases s.len(),
{
    if s.len() == 0 {
        seq![]
    } else if passed_over(s.last()) {
        without_passed_over(s.drop_last())
    } else {
        without_passed_over(s.drop_last()).push(s.last())
    }
}

/// What is left of the text behind the question mark before it is encoded: it ends before a number
/// sign, and control characters and spaces at its end are dropped.
pub open spec fn query_part(rest: Seq<char>) -> Seq<char> {
    let s = without_tail(rest);
    without_passed_over(s.take(crate::text::first_char(s, '#')))
}

/// Whether `text` is a WebSocket URL with this host and port, one word for a path, and this behind
/// the question mark.
pub open spec fn socket_text(
    text: Seq<char>,
    scheme: Seq<char>,
    host: Seq<char>,
    port: u16,
    word: Seq<char>,
    rest: Seq<char>,
) -> bool {
    &&& scheme == "ws"@ || scheme == "wss"@
    &&& plain_authority(host)
    &&& small_word(word)
    &&& text == scheme + "://"@ + host + ":"@ + crate::text::decimal(port as nat) + "/"@ + word
        + "?"@ + rest
}

/// The parts of the URL that such a text writes.
pub open spec fn socket_parts(
    url: UrlParts,
    scheme: Seq<char>,
    host: Seq<char>,
    port: u16,
    word: Seq<char>,
    rest: Seq<char>,
) -> bool {
    &&& url.scheme == scheme
    &&& url.port == Some(port)
    &&& kept_host(host) ==> url.host == Some(host) && url.authority == authority_text(
        scheme,
        host,
        port,
    )
    &&& url.path == "/"@ + word
    &&& url.query == Some(query_encoded(query_part(rest)))
    &&& url.fragment is Some <==> rest.contains('#')
}

/// How long a text may be so that the URL that it writes surely has less than 4 GB.
pub const SURE_URL_LENGTH: usize = 0x1000_0000;

/// What `url::Url::parse` makes of a text: the parts of the URL, or the message of the error.
pub uninterp spec fn url_parsed(text: Seq<char>) -> Result<UrlParts, Seq<char>>;

/// `s` without the spaces and tabs at its start.
pub open spec fn without_blanks(s: Seq<char>) -> Seq<char>
    decreases s.len(),
{
    if s.len() > 0 && (s[0] == ' ' || s[0] == '\t') {
        without_blanks(s.drop_first())
    } else {
        s
    }
}

/// Whether a text is a bare key of a TOML document.
pub open spec fn bare_key(s: Seq<char>) -> bool {
    &&& s.len() > 0
    &&& forall|i: int|
        0 <= i < s.len() ==> {
            let c = #[trigger] s[i];
            c == '-' || c == '_' || '0' <= c <= '9' || 'A' <= c <= 'Z' || 'a' <= c <= 'z'
        }
}

/// Whether a text stands between quotes for itself: it holds neither quotes, backslashes nor
/// control characters.
pub open spec fn plain_string(s: Seq<char>) -> bool {
    &&& s.len() > 0
    &&& forall|i: int|
        0 <= i < s.len() ==> {
            let c = #[trigger] s[i];
            c >= ' ' && c != '"' && c != '\'' && c != '\\' && c != '\u{7f}'
        }
}

/// Whether three quotes of one kind stand at an index of a text.
pub open spec fn triple_at(s: Seq<char>, i: int) -> bool {
    &&& 0 <= i && i + 2 < s.len()
    &&& s[i] == '"' || s[i] == '\''
    &&& s[i + 1] == s[i]
    &&& s[i + 2] == s[i]
}

/// Whether nothing on a line of a TOML document can reach over its end: no table, array or
/// multi-line string begins on it.
pub open spec fn closed_line(line: Seq<char>) -> bool {
    &&& !line.contains('[')
    &&& !line.contains('{')
    &&& forall|i: int| !#[trigger] triple_at(line, i)
}

/// Whether a line gives a bare key a plain string: the key, an equals sign, and the string in
/// quotes, with blanks before each of them.
pub open spec fn entry_line(line: Seq<char>, key: Seq<char>, value: Seq<char>) -> bool {
    let start = without_blanks(line);
    let sign = without_blanks(start.skip(key.len() as int));
    let string = entry_string(line, key);
    &&& bare_key(key)
    &&& plain_string(value)
    &&& key.is_prefix_of(start)
    &&& sign.len() > 0 && sign[0] == '='
    &&& string.len() >= value.len() + 2
    &&& string[0] == '"' || string[0] == '\''
    &&& string.subrange(1, 1 + value.len() as int) == value
    &&& string[1 + value.len() as int] == string[0]
}

/// Whether a line of a document gives a key of the root table this value, as can be told from the
/// line and those before it.
pub open spec fn root_entry(
    content: Seq<char>,
    key: Seq<char>,
    index: int,
    value: Seq<char>,
) -> bool {
    &&& 0 <= index < crate::text::lines(content).len()
    &&& forall|j: int| 0 <= j < index ==> closed_line(#[trigger] crate::text::lines(content)[j])
    &&& entry_line(crate::text::lines(content)[index], key, value)
}

/// The part of an entry's line from the opening quote on.
pub open spec fn entry_string(line: Seq<char>, key: Seq<char>) -> Seq<char> {
    let start = without_blanks(line);
    let sign = without_blanks(start.skip(key.len() as int));
    without_blanks(sign.skip(1))
}

/// What stands before the quoted string of an entry, in a document whose lines all end in a line
/// feed.
pub open spec fn before_entry(content: Seq<char>, key: Seq<char>, index: int) -> Seq<char> {
    let lines = crate::text::lines(content);
    crate::text::joined(lines.take(index)) + lines[index].take(
        lines[index].len() - entry_string(lines[index], key).len(),
    )
}

/// What stands behind the quoted string of an entry, in a document whose lines all end in a line
/// feed.
pub open spec fn after_entry(
    content: Seq<char>,
    key: Seq<char>,
    index: int,
    value: Seq<char>,
) -> Seq<char> {
    let lines = crate::text::lines(content);
    entry_string(lines[index], key).skip(2 + value.len() as int) + seq!['\n'] + crate::text::joined(
        lines.skip(index + 1),
    )
}

/// A quoted string between two texts.
pub open spec fn quoted_between(
    around: (Seq<char>, Seq<char>),
    value: Seq<char>,
) -> Seq<char> {
    around.0 + seq!['"'] + value + seq!['"'] + around.1
}

/// What `toml::from_str` makes of a document, seen at one key of its root table: the string that
/// stands there, nothing where the key is missing or holds no string, or the message of the error.
pub uninterp spec fn toml_string(content: Seq<char>, key: Seq<char>) -> Result<
    Option<Seq<char>>,
    Seq<char>,
>;

/// Whether a document can be read and holds a string at a key of its root table.
pub open spec fn holds_string(content: Seq<char>, key: Seq<char>) -> bool {
    match toml_string(content, key) {
        Ok(Some(_)) => true,
        _ => false,
    }
}

/// Whether a document reads as a string once it stands in quotes between two texts, where the string
/// stands there for itself.
pub open spec fn reads_between(
    around: (Seq<char>, Seq<char>),
    key: Seq<char>,
    value: Seq<char>,
) -> bool {
    plain_string(value) ==> toml_string(quoted_between(around, value), key) == Ok::<
        Option<Seq<char>>,
        Seq<char>,
    >(Some(value))
}

/// What stands around the value that `toml::de::DeTable::parse` finds at one key of the root table
/// of a document, where the document can be parsed and holds the key.
pub uninterp spec fn toml_around(content: Seq<char>, key: Seq<char>) -> Option<
    (Seq<char>, Seq<char>),
>;

/// The text of an optional string.
pub open spec fn option_text(s: Option<String>) -> Option<Seq<char>> {
    match s {
        Some(s) => Some(s@),
        None => None,
    }
}

/// The texts of an optional pair of strings.
pub open spec fn around_texts(around: Option<(String, String)>) -> Option<(Seq<char>, Seq<char>)> {
    match around {
        Some((before, after)) => Some((before@, after@)),
        None => None,
    }
}

/// `uuid::Uuid::new_v4`: some UUID of version 4. Which one is left to chance, so nothing more is
/// said of it. The call does not return where the system has no random bytes to give.
#[verifier::external_body]
pub(crate) fn random_uuid() -> (r: u128)
    ensures
        is_version_4(r),
{
    uuid::Uuid::new_v4().as_u128()
}

/// `uuid::Uuid`'s `Display`: the hyphenated text of the UUID with these 128 bits.
#[verifier::external_body]
pub(crate) fn uuid_to_text(value: u128) -> (r: String)
    ensures
        r@ == uuid_text(value),
{
    uuid::Uuid::from_u128(value).to_string()
}

/// `url::form_urlencoded::parse`, which `url::Url::query_pairs` calls: the pairs of a query, in
/// their order. A query that was written from pairs reads as these pairs, and one that begins with
/// raw pairs begins with them when it is read; where one pair is written behind them, one more is
/// read, and it has the name that is written there.
#[verifier::external_body]
pub(crate) fn query_pairs(query: &str) -> (r: Vec<(String, String)>)
    ensures
        pair_texts(r@) == form_parsed(query@),
        forall|pairs: Seq<(Seq<char>, Seq<char>)>| #[trigger]
            form_query(pairs) == query@ ==> pair_texts(r@) == pairs,
        forall|pairs: Seq<(Seq<char>, Seq<char>)>, rest: Seq<char>| #[trigger]
            begins_with(query@, pairs, rest) ==> pairs.is_prefix_of(pair_texts(r@)),
        forall|pairs: Seq<(Seq<char>, Seq<char>)>, name: Seq<char>, value: Seq<char>| #[trigger]
            ends_with(query@, pairs, name, value) ==> {
                &&& pair_texts(r@).len() == pairs.len() + 1
                &&& pairs.is_prefix_of(pair_texts(r@))
                &&& pair_texts(r@).last().0 == name
            },
{
    url::form_urlencoded::parse(query.as_bytes()).into_owned().collect()
}

/// `Serializer::clear` of `url::form_urlencoded`: the query is empty, and an empty query reads as
/// no pairs.
#[verifier::external_body]
pub(crate) fn clear_query(query: String) -> (r: String)
    ensures
        r@ == Seq::<char>::empty(),
        form_parsed(r@) == Seq::<(Seq<char>, Seq<char>)>::empty(),
{
    url::form_urlencoded::Serializer::new(query).clear().finish()
}

/// `Serializer::append_pair` of `url::form_urlencoded`: the pair stands behind what was there, in
/// the form syntax, and the new query reads as the old pairs and this one.
#[verifier::external_body]
pub(crate) fn append_pair(query: String, name: &str, value: &str) -> (r: String)
    ensures
        r@ == form_append(query@, name@, value@),
        form_parsed(r@) == form_parsed(query@).push((name@, value@)),
{
    url::form_urlencoded::Serializer::new(query).append_pair(name, value).finish()
}

/// `url::Url::parse`: the parts of the URL that `text` writes, or the message of the error. A text
/// that begins with `ws:` or `wss:` gives, if anything, a URL of that scheme. A WebSocket URL of
/// the plain shape gives, if anything, its port, its path and its query, and keeps a host name in
/// small letters or an address; with such a host, and short of 4 GB, it does give a URL. A label of
/// a host name that stands for other characters can be refused, unless a WebSocket URL had the host
/// before; and even then where it is too long to be decoded. A parsed URL is well formed. What
/// becomes of other hosts, and what the fragment is, is left unsaid.
#[verifier::external_body]
pub(crate) fn parse_text(text: &str) -> (r: Result<SocketUrl, String>)
    ensures
        match r {
            Ok(url) => url_parsed(text@) == Ok::<UrlParts, Seq<char>>(url@),
            Err(e) => url_parsed(text@) == Err::<UrlParts, Seq<char>>(e@),
        },
        match r {
            Ok(url) => well_formed(url@),
            Err(_) => true,
        },
        "ws:"@.is_prefix_of(text@) ==> match r {
            Ok(url) => url@.scheme == "ws"@,
            Err(_) => true,
        },
        "wss:"@.is_prefix_of(text@) ==> match r {
            Ok(url) => url@.scheme == "wss"@,
            Err(_) => true,
        },
        forall|
            scheme: Seq<char>,
            host: Seq<char>,
            port: u16,
            word: Seq<char>,
            rest: Seq<char>,
        | #[trigger]
            socket_text(text@, scheme, host, port, word, rest) ==> match r {
                Ok(url) => socket_parts(url@, scheme, host, port, word, rest),
                Err(_) => !plain_host(host) || text@.len() > SURE_URL_LENGTH,
            },
{
    match url::Url::parse(text) {
        Ok(u) => Ok(
            SocketUrl {
                scheme: u.scheme().to_owned(),
                authority: u[url::Position::AfterScheme..url::Position::BeforePath].to_owned(),
                host: u.host_str().map(str::to_owned),
                port: u.port_or_known_default(),
                path: u.path().to_owned(),
                query: u.query().map(str::to_owned),
                fragment: u.fragment().map(str::to_owned),
            },
        ),
        Err(e) => Err(e.to_string()),
    }
}

/// `toml::from_str`, then `toml::Value::get` and `toml::Value::as_str`: the string at `key` of the
/// root table of the document, or the message of the error. Where a line plainly gives the key a
/// value in the root table, a string that is found there is that value. That one is found is left
/// unsaid: a document is a date where its first key is the one that the crate keeps for dates.
#[verifier::external_body]
pub(crate) fn toml_string_at(content: &str, key: &str) -> (r: Result<Option<String>, String>)
    ensures
        match r {
            Ok(s) => toml_string(content@, key@) == Ok::<Option<Seq<char>>, Seq<char>>(
                option_text(s),
            ),
            Err(e) => toml_string(content@, key@) == Err::<Option<Seq<char>>, Seq<char>>(e@),
        },
        forall|index: int, value: Seq<char>| #[trigger]
            root_entry(content@, key@, index, value) ==> match r {
                Ok(Some(s)) => s@ == value,
                _ => true,
            },
{
    match toml::from_str::<toml::Value>(content) {
        Ok(value) => Ok(value.get(key).and_then(|v| v.as_str()).map(str::to_owned)),
        Err(e) => Err(e.to_string()),
    }
}

/// `toml::de::DeTable::parse`, then `get` and `Spanned::span`: what stands before and behind the
/// value at `key` of the root table. Where that value is a string, it is found, and the document
/// with another quoted string in its place reads as that string; and where a line plainly gives the
/// key a value, and all lines end in a line feed, it is the quoted string on that line.
#[verifier::external_body]
pub(crate) fn around_value(content: &str, key: &str) -> (r: Option<(String, String)>)
    ensures
        around_texts(r) == toml_around(content@, key@),
        match r {
            Some(around) => {
                &&& around.0@.is_prefix_of(content@)
                &&& around.1@.is_suffix_of(content@)
                &&& around.0@.len() + around.1@.len() <= content@.len()
                &&& holds_string(content@, key@) ==> forall|value: Seq<char>| #[trigger]
                    reads_between((around.0@, around.1@), key@, value)
            },
            None => !holds_string(content@, key@),
        },
        forall|index: int, value: Seq<char>|
            (#[trigger] root_entry(content@, key@, index, value) && holds_string(content@, key@)
                && content@ == crate::text::joined(crate::text::lines(content@)))
                ==> around_texts(r) == Some(
                (
                    before_entry(content@, key@, index),
                    after_entry(content@, key@, index, value),
                ),
            ),
{
    let table = toml::de::DeTable::parse(content).ok()?;
    let span = table.get_ref().get(key)?.span();
    Some((content[..span.start].to_owned(), content[span.end..].to_owned()))
}

} // verus!
