//! Replacing the `auto_gen` placeholder of a configuration file by a UUID.

use crate::text::{
    chars_of, equal_ignoring_case, find_char, same_text, skip_white_space, split_lines,
};
use vstd::prelude::*;

verus! {

/// Whether `c` ends the key of a `key = value` line: the equals sign or ASCII white space.
pub open spec fn ends_key(c: char) -> bool {
    c == '=' || c == ' ' || c == '\t' || c == '\n' || c == '\u{c}' || c == '\r'
}

/// The test for ending a key.
pub open spec fn key_stop() -> spec_fn(char) -> bool {
    |c: char| ends_key(c)
}

/// The first word of a line.
pub open spec fn key_of(line: Seq<char>) -> Seq<char> {
    let t = crate::text::trim_start(line);
    t.take(crate::text::first_index(t, key_stop()))
}

/// What follows the first equals sign of a line and the white space behind it.
pub open spec fn value_of(line: Seq<char>) -> Seq<char> {
    crate::text::trim_start(line.skip(crate::text::first_char(line, '=') + 1))
}

/// Whether a line gives `agent_uuid`, in any case, a value that begins with a quote.
pub open spec fn quotes_agent_uuid(line: Seq<char>) -> bool {
    &&& crate::text::same_ignoring_case(key_of(line), "agent_uuid"@)
    &&& crate::text::first_char(line, '=') < line.len()
    &&& value_of(line).len() > 0
    &&& value_of(line)[0] == '"' || value_of(line)[0] == '\''
}

/// What follows the opening quote.
pub open spec fn quoted(line: Seq<char>) -> Seq<char> {
    value_of(line).skip(1)
}

/// Whether a line asks for a generated UUID: `agent_uuid` is given a quoted value that begins
/// with `auto_gen`, in any case.
pub open spec fn asks(line: Seq<char>) -> bool {
    &&& quotes_agent_uuid(line)
    &&& quoted(line).len() >= 8
    &&& crate::text::same_ignoring_case(quoted(line).take(8), "auto_gen"@)
}

/// A line in which `uuid` stands for the placeholder, where the line asks for one.
pub open spec fn rewritten_line(line: Seq<char>, uuid: Seq<char>) -> Seq<char> {
    if asks(line) {
        line.take(crate::text::first_char(line, '=') + 1) + seq![' ', value_of(line)[0]] + uuid
            + quoted(line).skip(8)
    } else {
        line
    }
}

/// The lines of `content`, each rewritten.
pub open spec fn rewritten_lines(content: Seq<char>, uuid: Seq<char>) -> Seq<Seq<char>> {
    crate::text::lines(content).map_values(|l: Seq<char>| rewritten_line(l, uuid))
}

/// `content` with `uuid` in place of the placeholder on each line that asks for it. Every line
/// ends in a line feed.
pub open spec fn rewritten(content: Seq<char>, uuid: Seq<char>) -> Seq<char> {
    crate::text::joined(rewritten_lines(content, uuid))
}

/// The index behind the opening quote, where the line gives `agent_uuid` a quoted value.
fn quoted_start(line: &str, chars: &Vec<char>) -> (r: Option<usize>)
    requires
        chars@ == line@,
    ensures
        match r {
            Some(i) => {
                &&& quotes_agent_uuid(line@)
                &&& 0 < i <= line@.len()
                &&& quoted(line@) == line@.skip(i as int)
                &&& line@[i - 1] == value_of(line@)[0]
            },
            None => !quotes_agent_uuid(line@),
        },
{
    assert(line@.skip(0) =~= line@);
    let from: usize = skip_white_space(chars, 0);
    let mut end: usize = from;
    while end < chars.len() && !(chars[end] == '=' || chars[end] == ' ' || chars[end] == '\t'
        || chars[end] == '\n' || chars[end] == '\u{c}' || chars[end] == '\r')
        invariant
            from <= end <= chars@.len(),
            forall|j: int| from <= j < end ==> !ends_key(#[trigger] chars@[j]),
        decreases chars@.len() - end,
    {
        end = end + 1;
    }
    proof {
        let t = line@.skip(from as int);
        assert forall|j: int| 0 <= j < end - from implies !key_stop()(#[trigger] t[j]) by {
            assert(!ends_key(chars@[from + j]));
        }
        crate::text::lemma_first_index(t, key_stop(), end - from);
        assert(line@.subrange(from as int, end as int) =~= key_of(line@));
    }
    if !equal_ignoring_case(line.substring_char(from, end), "agent_uuid") {
        return None;
    }
    let eq: usize = find_char(chars, '=');
    if eq >= chars.len() {
        return None;
    }
    let start: usize = skip_white_space(chars, eq + 1);
    if start >= chars.len() || !(chars[start] == '"' || chars[start] == '\'') {
        return None;
    }
    assert(quoted(line@) =~= line@.skip(start + 1));
    Some(start + 1)
}

/// `line` with `uuid` in place of the placeholder, where the line asks for one.
fn rewrite_line(line: &str, uuid: &str) -> (r: String)
    ensures
        r@ == rewritten_line(line@, uuid@),
{
    let chars: Vec<char> = chars_of(line);
    match quoted_start(line, &chars) {
        Some(i) => {
            proof {
                reveal_strlit("auto_gen");
            }
            let n: usize = chars.len();
            if n - i >= 8 && equal_ignoring_case(line.substring_char(i, i + 8), "auto_gen") {
                assert(line@.subrange(i as int, i + 8) =~= quoted(line@).take(8));
                let eq: usize = find_char(&chars, '=');
                let mut out: String = line.substring_char(0, eq + 1).to_owned();
                out.append(" ");
                out.append(line.substring_char(i - 1, i));
                out.append(uuid);
                out.append(line.substring_char(i + 8, n));
                proof {
                    reveal_strlit(" ");
                    assert(out@ =~= rewritten_line(line@, uuid@));
                }
                return out;
            }
            proof {
                if n - i >= 8 {
                    assert(line@.subrange(i as int, i + 8) =~= quoted(line@).take(8));
                }
            }
            line.to_owned()
        },
        None => line.to_owned(),
    }
}

/// `content` with `new_uuid` in place of the `auto_gen` placeholder.
///
/// Each line that gives `agent_uuid` a quoted value beginning with `auto_gen` gets the UUID in
/// place of these eight characters; every other line stays as it is. All lines end in a line feed.
pub fn replace_auto_gen(content: &str, new_uuid: &str) -> (r: String)
    ensures
        r@ == rewritten(content@, new_uuid@),
{
    let lines: Vec<String> = split_lines(content);
    let mut out: String = String::new();
    let ghost all = rewritten_lines(content@, new_uuid@);
    assert(all.skip(0) =~= all);
    assert(lines@.map_values(|l: String| l@) == crate::text::lines(content@));
    let mut i: usize = 0;
    while i < lines.len()
        invariant
            i <= lines@.len(),
            all == rewritten_lines(content@, new_uuid@),
            lines@.map_values(|l: String| l@) == crate::text::lines(content@),
            out@ + crate::text::joined(all.skip(i as int)) == crate::text::joined(all),
        decreases lines@.len() - i,
    {
        let ghost before = out@;
        assert(lines@.map_values(|l: String| l@)[i as int] == lines@[i as int]@);
        let line: String = rewrite_line(&lines[i], new_uuid);
        out.append(&line);
        out.append("\n");
        proof {
            reveal_strlit("\n");
            assert(all[i as int] == line@);
            assert(all.skip(i as int)[0] == all[i as int]);
            assert(all.skip(i as int).drop_first() =~= all.skip(i + 1));
            assert(out@ + crate::text::joined(all.skip(i + 1)) =~= before + crate::text::joined(all.skip(i as int)));
        }
        i = i + 1;
    }
    proof {
        assert(lines@.len() == lines@.map_values(|l: String| l@).len());
        assert(all.skip(i as int).len() == 0);
        assert(out@ =~= crate::text::joined(all));
    }
    out
}

/// A file with `uuid` as its `agent_uuid`. Where the rewritten file, of which `read` is what it then
/// reads as, holds the UUID, it is that one; otherwise the UUID in quotes takes the place of the
/// value, with what stands around it on both sides, where that is known.
pub open spec fn placed(
    content: Seq<char>,
    uuid: Seq<char>,
    read: Result<Option<Seq<char>>, Seq<char>>,
    around: Option<(Seq<char>, Seq<char>)>,
) -> Option<Seq<char>> {
    if read == Ok::<Option<Seq<char>>, Seq<char>>(Some(uuid)) {
        Some(rewritten(content, uuid))
    } else {
        match around {
            Some(around) => Some(crate::outside::quoted_between(around, uuid)),
            None => None,
        }
    }
}

/// What a document reads as at a key, over texts.
pub open spec fn read_text(read: Result<Option<String>, String>) -> Result<
    Option<Seq<char>>,
    Seq<char>,
> {
    match read {
        Ok(s) => Ok(crate::outside::option_text(s)),
        Err(e) => Err(e@),
    }
}

/// Chooses the file that has `uuid` as its `agent_uuid`: `read` is what the file with the lines that
/// ask rewritten reads as, and `around` what stands around the value in `content`.
pub fn place_uuid(
    content: &str,
    uuid: &str,
    read: &Result<Option<String>, String>,
    around: &Option<(String, String)>,
) -> (r: Option<String>)
    ensures
        crate::outside::option_text(r) == placed(
            content@,
            uuid@,
            read_text(*read),
            crate::outside::around_texts(*around),
        ),
        (*read matches Ok(Some(found)) && found@ == uuid@) ==> (r matches Some(text) && text@
            == rewritten(content@, uuid@)),
        !(*read matches Ok(Some(found)) && found@ == uuid@) ==> match *around {
            Some((before, after)) => r matches Some(text) && text@ == before@ + seq!['"'] + uuid@
                + seq!['"'] + after@,
            None => r is None,
        },
{
    if let Ok(Some(found)) = read {
        if same_text(found, uuid) {
            return Some(replace_auto_gen(content, uuid));
        }
    }
    match around {
        Some((before, after)) => {
            let mut text: String = before.clone();
            text.append("\"");
            text.append(uuid);
            text.append("\"");
            text.append(after);
            proof {
                reveal_strlit("\"");
                assert(text@ =~= crate::outside::quoted_between((before@, after@), uuid@));
            }
            Some(text)
        },
        None => None,
    }
}

/// Whether a text holds no line feed.
spec fn one_line(s: Seq<char>) -> bool {
    forall|i: int| 0 <= i < s.len() ==> #[trigger] s[i] != '\n'
}

proof fn lemma_lines_are_lines(s: Seq<char>)
    ensures
        forall|i: int| 0 <= i < crate::text::lines(s).len() ==> one_line(
            #[trigger] crate::text::lines(s)[i],
        ),
    decreases s.len(),
{
    let end = crate::text::first_char(s, '\n');
    crate::text::lemma_first_index(s, crate::text::is_char('\n'), end);
    assert forall|j: int| 0 <= j < end implies s[j] != '\n' by {
        assert(!crate::text::is_char('\n')(s[j]));
    }
    if s.len() > 0 && end < s.len() {
        let rest = s.skip(end + 1);
        lemma_lines_are_lines(rest);
        let all = crate::text::lines(s);
        assert forall|i: int| 0 <= i < all.len() implies one_line(#[trigger] all[i]) by {
            if i > 0 {
                assert(all[i] == crate::text::lines(rest)[i - 1]);
            }
        }
    }
}

/// Reading back lines that were put together gives the lines, but for a carriage return at the
/// end of a line.
proof fn lemma_lines_of_joined(ls: Seq<Seq<char>>)
    requires
        forall|i: int| 0 <= i < ls.len() ==> one_line(#[trigger] ls[i]),
    ensures
        crate::text::lines(crate::text::joined(ls)) == ls.map_values(
            |l: Seq<char>| crate::text::without_return(l),
        ),
    decreases ls.len(),
{
    let strip = |l: Seq<char>| crate::text::without_return(l);
    if ls.len() > 0 {
        let rest = ls.drop_first();
        assert forall|i: int| 0 <= i < rest.len() implies one_line(#[trigger] rest[i]) by {
            assert(rest[i] == ls[i + 1]);
        }
        lemma_lines_of_joined(rest);
        let s = crate::text::joined(ls);
        let n = ls[0].len() as int;
        assert(one_line(ls[0]));
        assert forall|j: int| 0 <= j < n implies !crate::text::is_char('\n')(#[trigger] s[j]) by {
            assert(s[j] == ls[0][j]);
        }
        assert(s[n] == '\n');
        crate::text::lemma_first_index(s, crate::text::is_char('\n'), n);
        assert(s.take(n) =~= ls[0]);
        assert(s.skip(n + 1) =~= crate::text::joined(rest));
        assert(crate::text::lines(s) =~= ls.map_values(strip));
    } else {
        assert(crate::text::lines(crate::text::joined(ls)) =~= ls.map_values(strip));
    }
}

/// A line begins where its first character stands that is no white space.
proof fn lemma_trim_start_at(s: Seq<char>, k: int)
    requires
        0 <= k < s.len(),
        !crate::text::white_space(s[k]),
        forall|j: int| 0 <= j < k ==> crate::text::white_space(#[trigger] s[j]),
    ensures
        crate::text::trim_start(s) == s.skip(k),
    decreases s.len(),
{
    if k > 0 {
        let rest = s.drop_first();
        assert(crate::text::white_space(s[0]));
        assert forall|j: int| 0 <= j < k - 1 implies crate::text::white_space(
            #[trigger] rest[j],
        ) by {
            assert(crate::text::white_space(s[j + 1]));
        }
        lemma_trim_start_at(rest, k - 1);
        assert(rest.skip(k - 1) =~= s.skip(k));
    } else {
        assert(s.skip(0) =~= s);
    }
}

/// What stands behind the equals sign of a line does not change its key.
proof fn lemma_key_ends_before_value(line: Seq<char>, other: Seq<char>)
    requires
        key_of(line).len() > 0,
        crate::text::first_char(line, '=') < line.len(),
        line.take(crate::text::first_char(line, '=') + 1).is_prefix_of(other),
    ensures
        key_of(other) == key_of(line),
{
    let eq = crate::text::first_char(line, '=');
    crate::text::lemma_first_index(line, crate::text::is_char('='), eq);
    assert(line[eq] == '=');
    assert forall|j: int| 0 <= j <= eq implies #[trigger] other[j] == line[j] by {
        assert(line.take(eq + 1)[j] == line[j]);
    }
    let t = crate::text::trim_start(line);
    crate::text::lemma_trim_start(line);
    let k = line.len() - t.len();
    assert(t[0] == line[k]);
    if eq < k {
        assert(crate::text::white_space(line[eq]));
    }
    lemma_trim_start_at(other, k);
    let u = crate::text::trim_start(other);
    let end = crate::text::first_index(t, key_stop());
    crate::text::lemma_first_index(t, key_stop(), end);
    assert(t[eq - k] == '=');
    assert(key_stop()(t[eq - k]));
    assert(end <= eq - k);
    assert forall|j: int| 0 <= j <= end implies #[trigger] u[j] == t[j] by {
        assert(u[j] == other[k + j]);
        assert(t[j] == line[k + j]);
    }
    crate::text::lemma_first_index(u, key_stop(), end);
    assert(key_of(other) =~= key_of(line));
}

/// A line whose placeholder was replaced quotes the UUID, and does not ask again.
proof fn lemma_placeholder_replaced(line: Seq<char>, uuid: Seq<char>, tail: Seq<char>)
    requires
        asks(line),
        uuid.len() >= 8,
        uuid[1] != 'u',
        uuid[1] != 'U',
    ensures
        ({
            let new_line = line.take(crate::text::first_char(line, '=') + 1) + seq![
                ' ',
                value_of(line)[0],
            ] + uuid + tail;
            &&& quotes_agent_uuid(new_line)
            &&& quoted(new_line) == uuid + tail
            &&& !asks(new_line)
        }),
{
    let eq = crate::text::first_char(line, '=');
    let q = value_of(line)[0];
    let x = line.take(eq + 1) + seq![' ', q] + uuid + tail;
    let is_eq = crate::text::is_char('=');
    crate::text::lemma_first_index(line, is_eq, eq);
    assert forall|j: int| 0 <= j <= eq implies #[trigger] x[j] == line[j] by {}
    crate::text::lemma_first_index(x, is_eq, eq);
    reveal_strlit("agent_uuid");
    lemma_key_ends_before_value(line, x);
    let after = x.skip(eq + 1);
    assert(after =~= seq![' ', q] + uuid + tail);
    assert(after.drop_first() =~= seq![q] + uuid + tail);
    assert(!crate::text::white_space(q));
    assert(crate::text::trim_start(after.drop_first()) == after.drop_first());
    assert(crate::text::trim_start(after) == crate::text::trim_start(after.drop_first()));
    assert(quoted(x) =~= uuid + tail);
    reveal_strlit("auto_gen");
    assert(quoted(x).take(8)[1] == uuid[1]);
    assert("auto_gen"@[1] == 'u');
    assert(crate::text::ascii_lower('u') == 'u');
    assert(crate::text::ascii_lower(uuid[1]) != 'u');
}

/// White space behind the first other character does not change where the text begins.
proof fn lemma_trim_start_push(s: Seq<char>, c: char)
    requires
        crate::text::trim_start(s).len() > 0,
    ensures
        crate::text::trim_start(s.push(c)) == crate::text::trim_start(s).push(c),
    decreases s.len(),
{
    if s.len() > 0 && crate::text::white_space(s[0]) {
        assert(s.push(c).drop_first() =~= s.drop_first().push(c));
        lemma_trim_start_push(s.drop_first(), c);
    }
}

/// A line that asks still asks with a carriage return at its end.
proof fn lemma_asks_with_return(line: Seq<char>)
    requires
        asks(line),
    ensures
        asks(line.push('\r')),
{
    let x = line.push('\r');
    let eq = crate::text::first_char(line, '=');
    let is_eq = crate::text::is_char('=');
    crate::text::lemma_first_index(line, is_eq, eq);
    assert forall|j: int| 0 <= j < eq implies !is_eq(#[trigger] x[j]) by {
        assert(x[j] == line[j]);
    }
    crate::text::lemma_first_index(x, is_eq, eq);
    assert(x.skip(eq + 1) =~= line.skip(eq + 1).push('\r'));
    lemma_trim_start_push(line.skip(eq + 1), '\r');
    assert(quoted(x) =~= quoted(line).push('\r'));
    assert(quoted(x).take(8) =~= quoted(line).take(8));
    let t = crate::text::trim_start(line);
    let end = crate::text::first_index(t, key_stop());
    crate::text::lemma_first_index(t, key_stop(), end);
    reveal_strlit("agent_uuid");
    lemma_trim_start_push(line, '\r');
    let y = crate::text::trim_start(x);
    assert forall|j: int| 0 <= j < end implies !key_stop()(#[trigger] y[j]) by {
        assert(y[j] == t[j]);
    }
    assert(end < t.len() ==> y[end] == t[end]);
    crate::text::lemma_first_index(y, key_stop(), end);
    assert(key_of(x) =~= key_of(line));
}

/// The text of a UUID has 36 characters, all of them hyphens or hexadecimal digits.
pub proof fn lemma_uuid_text(value: u128)
    ensures
        crate::outside::uuid_text(value).len() == 36,
        forall|i: int|
            0 <= i < 36 ==> {
                let c = #[trigger] crate::outside::uuid_text(value)[i];
                c == '-' || '0' <= c <= '9' || 'a' <= c <= 'f'
            },
{
    let text = crate::outside::uuid_text(value);
    assert forall|i: int| 0 <= i < 36 implies {
        let c = #[trigger] text[i];
        c == '-' || '0' <= c <= '9' || 'a' <= c <= 'f'
    } by {
        if i != 8 && i != 13 && i != 18 && i != 23 {
            let at = if i < 8 {
                i
            } else if i < 13 {
                i - 1
            } else if i < 18 {
                i - 2
            } else if i < 23 {
                i - 3
            } else {
                i - 4
            };
            assert(text[i] == crate::outside::hex_char(crate::outside::nibble(value, at)));
        }
    }
}

/// The text of a UUID has its hyphens behind 8, 12, 16 and 20 digits, and the UUID is of version 4
/// exactly if the third group begins with 4 and the fourth with 8, 9, a or b.
pub proof fn law_uuid_text(value: u128)
    ensures
        crate::outside::uuid_text(value).len() == 36,
        forall|i: int|
            0 <= i < 36 ==> (#[trigger] crate::outside::uuid_text(value)[i] == '-' <==> i == 8 || i
                == 13 || i == 18 || i == 23),
        crate::outside::is_version_4(value) <==> {
            let third = crate::outside::uuid_text(value)[14];
            let fourth = crate::outside::uuid_text(value)[19];
            third == '4' && (fourth == '8' || fourth == '9' || fourth == 'a' || fourth == 'b')
        },
{
    let text = crate::outside::uuid_text(value);
    assert forall|i: int| 0 <= i < 36 implies (#[trigger] text[i] == '-' <==> i == 8 || i == 13 || i
        == 18 || i == 23) by {
        if i != 8 && i != 13 && i != 18 && i != 23 {
            let at = if i < 8 {
                i
            } else if i < 13 {
                i - 1
            } else if i < 18 {
                i - 2
            } else if i < 23 {
                i - 3
            } else {
                i - 4
            };
            assert(text[i] == crate::outside::hex_char(crate::outside::nibble(value, at)));
        }
    }
    assert(text[14] == crate::outside::hex_char(crate::outside::nibble(value, 12)));
    assert(text[19] == crate::outside::hex_char(crate::outside::nibble(value, 16)));
}

/// The text of a UUID stands between quotes for itself, and is no placeholder.
pub proof fn lemma_uuid_is_plain(value: u128)
    ensures
        crate::outside::plain_string(crate::outside::uuid_text(value)),
        !crate::text::same_ignoring_case(crate::outside::uuid_text(value), "auto_gen"@),
{
    lemma_uuid_text(value);
    reveal_strlit("auto_gen");
}

/// A rewritten file asks for no UUID. When it is read again, it has as many lines as before and
/// none of them asks; each line that asked now gives `agent_uuid` a quoted value that begins with
/// the UUID, and every other line is still there, in its place.
pub proof fn law_rewritten_does_not_ask(content: Seq<char>, value: u128)
    ensures
        crate::text::lines(rewritten(content, crate::outside::uuid_text(value))).len()
            == crate::text::lines(content).len(),
        forall|i: int|
            0 <= i < crate::text::lines(content).len() ==> {
                let new_line = #[trigger] crate::text::lines(
                    rewritten(content, crate::outside::uuid_text(value)),
                )[i];
                let old_line = crate::text::lines(content)[i];
                &&& !asks(new_line)
                &&& asks(old_line) ==> quotes_agent_uuid(new_line) && crate::outside::uuid_text(
                    value,
                ).is_prefix_of(quoted(new_line))
                &&& !asks(old_line) ==> new_line == crate::text::without_return(old_line)
            },
{
    let uuid = crate::outside::uuid_text(value);
    let old_lines = crate::text::lines(content);
    let ls = rewritten_lines(content, uuid);
    lemma_uuid_text(value);
    assert(one_line(uuid));
    lemma_rewritten_lines_are_lines(content, uuid);
    lemma_lines_of_joined(ls);
    let new_lines = crate::text::lines(rewritten(content, uuid));
    assert forall|i: int| 0 <= i < old_lines.len() implies {
        let new_line = #[trigger] new_lines[i];
        &&& !asks(new_line)
        &&& asks(old_lines[i]) ==> quotes_agent_uuid(new_line) && uuid.is_prefix_of(
            quoted(new_line),
        )
        &&& !asks(old_lines[i]) ==> new_line == crate::text::without_return(old_lines[i])
    } by {
        let line = old_lines[i];
        let new_line = new_lines[i];
        assert(new_line == crate::text::without_return(ls[i]));
        if asks(line) {
            let tail = quoted(line).skip(8);
            let head = line.take(crate::text::first_char(line, '=') + 1) + seq![
                ' ',
                value_of(line)[0],
            ] + uuid;
            assert(ls[i] == head + tail);
            if tail.len() == 0 {
                assert(ls[i].last() == uuid.last());
                lemma_placeholder_replaced(line, uuid, tail);
            } else {
                assert(ls[i].last() == tail.last());
                let kept = crate::text::without_return(tail);
                assert(new_line =~= head + kept);
                lemma_placeholder_replaced(line, uuid, kept);
            }
        } else if line.len() > 0 && line.last() == '\r' {
            assert(line.drop_last().push('\r') =~= line);
            if asks(line.drop_last()) {
                lemma_asks_with_return(line.drop_last());
            }
        }
    }
}

proof fn lemma_rewritten_lines_are_lines(content: Seq<char>, uuid: Seq<char>)
    requires
        one_line(uuid),
    ensures
        forall|i: int| 0 <= i < rewritten_lines(content, uuid).len() ==> one_line(
            #[trigger] rewritten_lines(content, uuid)[i],
        ),
{
    let old_lines = crate::text::lines(content);
    let ls = rewritten_lines(content, uuid);
    lemma_lines_are_lines(content);
    assert forall|i: int| 0 <= i < ls.len() implies one_line(#[trigger] ls[i]) by {
        let line = old_lines[i];
        assert(one_line(line));
        if asks(line) {
            let eq = crate::text::first_char(line, '=');
            crate::text::lemma_first_index(line, crate::text::is_char('='), eq);
            crate::text::lemma_trim_start(line.skip(eq + 1));
            let head = line.take(eq + 1);
            let mid = seq![' ', value_of(line)[0]];
            let tail = quoted(line).skip(8);
            assert forall|j: int| 0 <= j < tail.len() implies #[trigger] tail[j] != '\n' by {
                let k = line.skip(eq + 1).len() - value_of(line).len();
                assert(tail[j] == value_of(line)[j + 9]);
                assert(value_of(line)[j + 9] == line.skip(eq + 1)[k + j + 9]);
                assert(line[eq + 1 + k + j + 9] != '\n');
            }
            let x = head + mid + uuid + tail;
            assert forall|j: int| 0 <= j < x.len() implies #[trigger] x[j] != '\n' by {
                if j < head.len() {
                    assert(x[j] == line[j]);
                } else if j < head.len() + 2 {
                    assert(x[j] == mid[j - head.len()]);
                } else if j < head.len() + 2 + uuid.len() {
                    assert(x[j] == uuid[j - head.len() - 2]);
                } else {
                    assert(x[j] == tail[j - head.len() - 2 - uuid.len()]);
                }
            }
        }
    }
}

/// Dropping blanks leaves the end of a text, from the first character on that is no blank.
proof fn lemma_without_blanks(s: Seq<char>)
    ensures
        ({
            let t = crate::outside::without_blanks(s);
            let k = s.len() - t.len();
            &&& 0 <= k
            &&& t == s.skip(k)
            &&& forall|j: int| 0 <= j < k ==> #[trigger] s[j] == ' ' || s[j] == '\t'
            &&& t.len() > 0 ==> t[0] != ' ' && t[0] != '\t'
        }),
    decreases s.len(),
{
    if s.len() > 0 && (s[0] == ' ' || s[0] == '\t') {
        let rest = s.drop_first();
        lemma_without_blanks(rest);
        let k = rest.len() - crate::outside::without_blanks(rest).len();
        assert(rest.skip(k) =~= s.skip(k + 1));
        assert forall|j: int| 0 <= j < k + 1 implies #[trigger] s[j] == ' ' || s[j] == '\t' by {
            if j > 0 {
                assert(rest[j - 1] == s[j]);
            }
        }
    } else {
        assert(s.skip(0) =~= s);
    }
}

/// A text without its blanks begins where its first character stands that is no blank.
proof fn lemma_without_blanks_at(s: Seq<char>, k: int)
    requires
        0 <= k < s.len(),
        s[k] != ' ' && s[k] != '\t',
        forall|j: int| 0 <= j < k ==> #[trigger] s[j] == ' ' || s[j] == '\t',
    ensures
        crate::outside::without_blanks(s) == s.skip(k),
    decreases s.len(),
{
    if k > 0 {
        let rest = s.drop_first();
        assert(s[0] == ' ' || s[0] == '\t');
        assert forall|j: int| 0 <= j < k - 1 implies #[trigger] rest[j] == ' ' || rest[j]
            == '\t' by {
            assert(s[j + 1] == ' ' || s[j + 1] == '\t');
        }
        lemma_without_blanks_at(rest, k - 1);
        assert(rest.skip(k - 1) =~= s.skip(k));
    } else {
        assert(s.skip(0) =~= s);
    }
}

/// Where the parts of an entry stand on its line: the key at `k`, the equals sign at `eq`, and the
/// opening quote at `q`.
spec fn entry_at(
    line: Seq<char>,
    key: Seq<char>,
    value: Seq<char>,
    k: int,
    eq: int,
    q: int,
) -> bool {
    &&& 0 <= k && k + key.len() <= eq < q && q + value.len() + 1 < line.len()
    &&& forall|j: int| 0 <= j < k ==> #[trigger] line[j] == ' ' || line[j] == '\t'
    &&& line.subrange(k, k + key.len()) == key
    &&& forall|j: int| k + key.len() <= j < eq ==> #[trigger] line[j] == ' ' || line[j] == '\t'
    &&& line[eq] == '='
    &&& forall|j: int| eq < j < q ==> #[trigger] line[j] == ' ' || line[j] == '\t'
    &&& line[q] == '"' || line[q] == '\''
    &&& line.subrange(q + 1, q + 1 + value.len()) == value
    &&& line[q + 1 + value.len()] == line[q]
}

/// The parts of an entry stand somewhere on its line.
proof fn lemma_entry_is_at(line: Seq<char>, key: Seq<char>, value: Seq<char>) -> (r: (
    int,
    int,
    int,
))
    requires
        crate::outside::entry_line(line, key, value),
    ensures
        entry_at(line, key, value, r.0, r.1, r.2),
        crate::outside::entry_string(line, key) == line.skip(r.2),
{
    let start = crate::outside::without_blanks(line);
    let k = line.len() - start.len();
    lemma_without_blanks(line);
    let behind = start.skip(key.len() as int);
    let sign = crate::outside::without_blanks(behind);
    lemma_without_blanks(behind);
    assert(behind =~= line.skip(k + key.len()));
    let eq = line.len() - sign.len();
    assert(sign =~= line.skip(eq));
    let after = sign.skip(1);
    let string = crate::outside::without_blanks(after);
    lemma_without_blanks(after);
    assert(after =~= line.skip(eq + 1));
    let q = line.len() - string.len();
    assert(string =~= line.skip(q));
    assert(line.subrange(k, k + key.len()) =~= key) by {
        assert forall|j: int| 0 <= j < key.len() implies #[trigger] line[k + j] == key[j] by {
            assert(start[j] == key[j]);
        }
    }
    assert forall|j: int| k + key.len() <= j < eq implies #[trigger] line[j] == ' ' || line[j]
        == '\t' by {
        assert(behind[j - k - key.len()] == line[j]);
    }
    assert forall|j: int| eq < j < q implies #[trigger] line[j] == ' ' || line[j] == '\t' by {
        assert(after[j - eq - 1] == line[j]);
    }
    assert(sign[0] == line[eq]);
    assert(string[0] == line[q]);
    assert(string[1 + value.len() as int] == line[q + 1 + value.len()]);
    assert(line.subrange(q + 1, q + 1 + value.len()) =~= string.subrange(1, 1 + value.len() as int));
    (k, eq, q)
}

/// A line on which the parts of an entry stand is an entry.
proof fn lemma_entry_at(line: Seq<char>, key: Seq<char>, value: Seq<char>, k: int, eq: int, q: int)
    requires
        crate::outside::bare_key(key),
        crate::outside::plain_string(value),
        entry_at(line, key, value, k, eq, q),
    ensures
        crate::outside::entry_line(line, key, value),
{
    assert(line[k] == line.subrange(k, k + key.len())[0]);
    assert(line[k] == key[0]);
    lemma_without_blanks_at(line, k);
    let start = line.skip(k);
    assert forall|j: int| 0 <= j < key.len() implies #[trigger] start[j] == key[j] by {
        assert(line.subrange(k, k + key.len())[j] == key[j]);
    }
    let behind = start.skip(key.len() as int);
    assert forall|j: int| 0 <= j < eq - k - key.len() implies #[trigger] behind[j] == ' '
        || behind[j] == '\t' by {
        assert(behind[j] == line[k + key.len() + j]);
    }
    lemma_without_blanks_at(behind, eq - k - key.len());
    let sign = behind.skip(eq - k - key.len());
    assert(sign =~= line.skip(eq));
    let after = sign.skip(1);
    assert forall|j: int| 0 <= j < q - eq - 1 implies #[trigger] after[j] == ' ' || after[j]
        == '\t' by {
        assert(after[j] == line[eq + 1 + j]);
    }
    lemma_without_blanks_at(after, q - eq - 1);
    let string = after.skip(q - eq - 1);
    assert(string =~= line.skip(q));
    assert(string.subrange(1, 1 + value.len() as int) =~= line.subrange(q + 1, q + 1 + value.len()));
}

/// An entry that gives `agent_uuid` the placeholder asks for a UUID.
proof fn lemma_entry_asks(line: Seq<char>, value: Seq<char>) -> (r: (int, int, int))
    requires
        crate::outside::entry_line(line, "agent_uuid"@, value),
        crate::text::same_ignoring_case(value, "auto_gen"@),
    ensures
        entry_at(line, "agent_uuid"@, value, r.0, r.1, r.2),
        crate::outside::entry_string(line, "agent_uuid"@) == line.skip(r.2),
        value.len() == 8,
        crate::text::first_char(line, '=') == r.1,
        value_of(line) == line.skip(r.2),
        asks(line),
{
    let key = "agent_uuid"@;
    reveal_strlit("agent_uuid");
    reveal_strlit("auto_gen");
    let (k, eq, q) = lemma_entry_is_at(line, key, value);
    assert forall|j: int| 0 <= j < key.len() implies #[trigger] line[k + j] == key[j] by {
        assert(line.subrange(k, k + key.len())[j] == key[j]);
    }
    assert(line[k + 0] == 'a');
    lemma_trim_start_at(line, k);
    let t = line.skip(k);
    assert forall|j: int| 0 <= j < key.len() implies !key_stop()(#[trigger] t[j]) by {
        assert(t[j] == line[k + j]);
        assert(key[j] == line[k + j]);
    }
    assert(t[key.len() as int] == line[k + key.len()]);
    assert(key_stop()(t[key.len() as int]));
    crate::text::lemma_first_index(t, key_stop(), key.len() as int);
    assert(key_of(line) =~= key);
    let is_eq = crate::text::is_char('=');
    assert forall|j: int| 0 <= j < eq implies !is_eq(#[trigger] line[j]) by {
        if k <= j < k + key.len() {
            assert(line[k + (j - k)] == key[j - k]);
        }
    }
    crate::text::lemma_first_index(line, is_eq, eq);
    let after = line.skip(eq + 1);
    assert forall|j: int| 0 <= j < q - eq - 1 implies crate::text::white_space(
        #[trigger] after[j],
    ) by {
        assert(after[j] == line[eq + 1 + j]);
    }
    lemma_trim_start_at(after, q - eq - 1);
    assert(value_of(line) =~= line.skip(q));
    assert(quoted(line) =~= line.skip(q + 1));
    assert(quoted(line).take(8) =~= line.subrange(q + 1, q + 1 + value.len()));
    assert(asks(line));
    (k, eq, q)
}

/// An entry that gives `agent_uuid` the placeholder gives it the UUID when it is rewritten.
proof fn lemma_entry_rewritten(line: Seq<char>, value: Seq<char>, uuid: Seq<char>)
    requires
        crate::outside::entry_line(line, "agent_uuid"@, value),
        crate::text::same_ignoring_case(value, "auto_gen"@),
        crate::outside::plain_string(uuid),
    ensures
        crate::outside::entry_line(
            crate::text::without_return(rewritten_line(line, uuid)),
            "agent_uuid"@,
            uuid,
        ),
{
    let key = "agent_uuid"@;
    reveal_strlit("agent_uuid");
    let (k, eq, q) = lemma_entry_asks(line, value);
    assert forall|j: int| 0 <= j < key.len() implies #[trigger] line[k + j] == key[j] by {
        assert(line.subrange(k, k + key.len())[j] == key[j]);
    }
    assert(quoted(line) =~= line.skip(q + 1));
    let tail = line.skip(q + 9);
    assert(quoted(line).skip(8) =~= tail);
    let all = line.take(eq + 1) + seq![' ', line[q]] + uuid + tail;
    assert(rewritten_line(line, uuid) =~= all);
    let new_line = crate::text::without_return(all);
    assert(tail[0] == line[q]);
    assert(all[eq + 3 + uuid.len()] == tail[0]);
    assert(all.last() == tail.last());
    assert(new_line.len() >= eq + 4 + uuid.len());
    assert forall|j: int| 0 <= j <= eq implies #[trigger] new_line[j] == line[j] by {}
    assert(new_line.subrange(k, k + key.len()) =~= key) by {
        assert forall|j: int| 0 <= j < key.len() implies #[trigger] new_line[k + j] == key[j] by {
            assert(line[k + j] == key[j]);
        }
    }
    assert(new_line[eq + 1] == ' ');
    assert(new_line[eq + 2] == line[q]);
    assert(new_line.subrange(eq + 3, eq + 3 + uuid.len()) =~= uuid);
    assert(entry_at(new_line, key, uuid, k, eq, eq + 2));
    lemma_entry_at(new_line, key, uuid, k, eq, eq + 2);
}

/// A rewritten line reaches over its end no more than the line did.
proof fn lemma_closed_line_rewritten(line: Seq<char>, uuid: Seq<char>)
    requires
        crate::outside::closed_line(line),
        crate::outside::plain_string(uuid),
        !uuid.contains('['),
        !uuid.contains('{'),
    ensures
        crate::outside::closed_line(crate::text::without_return(rewritten_line(line, uuid))),
{
    let all = rewritten_line(line, uuid);
    let new_line = crate::text::without_return(all);
    if asks(line) {
        let eq = crate::text::first_char(line, '=');
        crate::text::lemma_first_index(line, crate::text::is_char('='), eq);
        crate::text::lemma_trim_start(line.skip(eq + 1));
        let m = line.len() - quoted(line).skip(8).len();
        let q = value_of(line)[0];
        let n = eq + 3 + uuid.len();
        let tail = line.skip(m);
        assert(value_of(line) =~= line.skip(line.len() - value_of(line).len()));
        assert(quoted(line).skip(8) =~= tail);
        assert(all =~= line.take(eq + 1) + seq![' ', q] + uuid + tail);
        assert forall|j: int| 0 <= j < all.len() implies {
            let c = #[trigger] all[j];
            c != '[' && c != '{'
        } by {
            if j <= eq {
                assert(line.contains(line[j]));
            } else if eq + 3 <= j < n {
                assert(all[j] == uuid[j - eq - 3]);
                assert(uuid.contains(uuid[j - eq - 3]));
            } else if n <= j {
                assert(all[j] == line[m + j - n]);
                assert(line.contains(line[m + j - n]));
            }
        }
        assert forall|i: int| !#[trigger] crate::outside::triple_at(all, i) by {
            if crate::outside::triple_at(all, i) {
                if i + 2 <= eq {
                    assert(crate::outside::triple_at(line, i));
                } else if i >= n {
                    assert(all[i] == line[m + i - n]);
                    assert(all[i + 1] == line[m + i + 1 - n]);
                    assert(all[i + 2] == line[m + i + 2 - n]);
                    assert(crate::outside::triple_at(line, m + i - n));
                } else {
                    assert(all[eq + 1] == ' ');
                    if eq + 3 <= i < n {
                        assert(all[i] == uuid[i - eq - 3]);
                    }
                    assert(all[eq + 3] == uuid[0]);
                }
            }
        }
    }
    assert forall|j: int| 0 <= j < new_line.len() implies {
        let c = #[trigger] new_line[j];
        c != '[' && c != '{'
    } by {
        assert(new_line[j] == all[j]);
        assert(all.contains(all[j]));
    }
    assert forall|i: int| !#[trigger] crate::outside::triple_at(new_line, i) by {
        if crate::outside::triple_at(new_line, i) {
            assert(crate::outside::triple_at(all, i));
        }
    }
}

/// Where a line plainly gives `agent_uuid` the placeholder in the root table, that line of the
/// rewritten file plainly gives it the UUID, which is no placeholder.
pub proof fn law_rewritten_gives_the_uuid(
    content: Seq<char>,
    value: u128,
    index: int,
    placeholder: Seq<char>,
)
    requires
        crate::outside::root_entry(content, "agent_uuid"@, index, placeholder),
        crate::text::same_ignoring_case(placeholder, "auto_gen"@),
    ensures
        crate::outside::root_entry(
            rewritten(content, crate::outside::uuid_text(value)),
            "agent_uuid"@,
            index,
            crate::outside::uuid_text(value),
        ),
        !crate::text::same_ignoring_case(crate::outside::uuid_text(value), "auto_gen"@),
{
    let uuid = crate::outside::uuid_text(value);
    let old_lines = crate::text::lines(content);
    let ls = rewritten_lines(content, uuid);
    lemma_uuid_text(value);
    reveal_strlit("auto_gen");
    assert(one_line(uuid));
    assert(crate::outside::plain_string(uuid));
    lemma_rewritten_lines_are_lines(content, uuid);
    lemma_lines_of_joined(ls);
    let new_lines = crate::text::lines(rewritten(content, uuid));
    assert forall|j: int| 0 <= j < index implies crate::outside::closed_line(
        #[trigger] new_lines[j],
    ) by {
        assert(crate::outside::closed_line(old_lines[j]));
        lemma_closed_line_rewritten(old_lines[j], uuid);
        assert(new_lines[j] == crate::text::without_return(ls[j]));
    }
    lemma_entry_rewritten(old_lines[index], placeholder, uuid);
    assert(new_lines[index] == crate::text::without_return(ls[index]));
}

/// Whether a file is tidy: all its lines end in a line feed, and just one of them asks for a UUID,
/// which plainly gives `agent_uuid` the placeholder in the root table, in double quotes and one
/// space behind the equals sign.
pub open spec fn tidy_entry(content: Seq<char>, index: int, placeholder: Seq<char>) -> bool {
    let lines = crate::text::lines(content);
    let start = lines[index].len() - crate::outside::entry_string(
        lines[index],
        "agent_uuid"@,
    ).len();
    &&& content == crate::text::joined(lines)
    &&& crate::outside::root_entry(content, "agent_uuid"@, index, placeholder)
    &&& crate::text::same_ignoring_case(placeholder, "auto_gen"@)
    &&& forall|j: int| 0 <= j < lines.len() && j != index ==> !asks(#[trigger] lines[j])
    &&& lines[index][start] == '"'
    &&& lines[index][start - 1] == ' '
    &&& lines[index][start - 2] == '='
}

/// Lines put together, with one of them set apart.
proof fn lemma_joined_at(ls: Seq<Seq<char>>, i: int)
    requires
        0 <= i < ls.len(),
    ensures
        crate::text::joined(ls) == crate::text::joined(ls.take(i)) + ls[i] + seq!['\n']
            + crate::text::joined(ls.skip(i + 1)),
    decreases ls.len(),
{
    if i > 0 {
        let rest = ls.drop_first();
        lemma_joined_at(rest, i - 1);
        assert(ls.take(i).drop_first() =~= rest.take(i - 1));
        assert(rest.skip(i) =~= ls.skip(i + 1));
        assert(ls.take(i)[0] == ls[0]);
        assert(crate::text::joined(ls) =~= crate::text::joined(ls.take(i)) + ls[i] + seq!['\n']
            + crate::text::joined(ls.skip(i + 1)));
    } else {
        assert(ls.take(0) =~= seq![]);
        assert(ls.drop_first() =~= ls.skip(1));
        assert(crate::text::joined(ls) =~= crate::text::joined(ls.take(0)) + ls[0] + seq!['\n']
            + crate::text::joined(ls.skip(1)));
    }
}

/// Rewriting a tidy file puts the UUID in the place of the quoted placeholder and changes nothing
/// else.
pub proof fn law_tidy_file_rewritten(
    content: Seq<char>,
    index: int,
    placeholder: Seq<char>,
    uuid: Seq<char>,
)
    requires
        tidy_entry(content, index, placeholder),
    ensures
        rewritten(content, uuid) == crate::outside::quoted_between(
            (
                crate::outside::before_entry(content, "agent_uuid"@, index),
                crate::outside::after_entry(content, "agent_uuid"@, index, placeholder),
            ),
            uuid,
        ),
{
    let lines = crate::text::lines(content);
    let line = lines[index];
    let ls = rewritten_lines(content, uuid);
    let (k, eq, q) = lemma_entry_asks(line, placeholder);
    let string = crate::outside::entry_string(line, "agent_uuid"@);
    assert(string.len() == line.len() - q);
    assert(eq + 2 == q);
    assert(ls[index] == rewritten_line(line, uuid));
    assert(rewritten_line(line, uuid) =~= line.take(q) + seq!['"'] + uuid + seq!['"'] + string.skip(
        2 + placeholder.len() as int,
    )) by {
        assert(line.take(eq + 1) + seq![' '] =~= line.take(q));
        assert(quoted(line).skip(8) =~= line.skip(q + 9));
        assert(line[q + 9] == '"');
        assert(line.skip(q + 9) =~= seq!['"'] + string.skip(10));
    }
    assert(ls.take(index) =~= lines.take(index));
    assert(ls.skip(index + 1) =~= lines.skip(index + 1));
    lemma_joined_at(ls, index);
    assert(rewritten(content, uuid) =~= crate::outside::quoted_between(
        (
            crate::outside::before_entry(content, "agent_uuid"@, index),
            crate::outside::after_entry(content, "agent_uuid"@, index, placeholder),
        ),
        uuid,
    ));
}

/// Rewriting a rewritten file leaves it as it is, whatever UUID is offered the second time. A line
/// that ends in a carriage return of its own loses it when the file is read again.
pub proof fn law_rewriting_twice(content: Seq<char>, value: u128, other: Seq<char>)
    requires
        forall|i: int|
            0 <= i < crate::text::lines(content).len() ==> crate::text::without_return(
                #[trigger] crate::text::lines(content)[i],
            ) == crate::text::lines(content)[i],
    ensures
        rewritten(rewritten(content, crate::outside::uuid_text(value)), other) == rewritten(
            content,
            crate::outside::uuid_text(value),
        ),
{
    let uuid = crate::outside::uuid_text(value);
    let old_lines = crate::text::lines(content);
    let ls = rewritten_lines(content, uuid);
    lemma_uuid_text(value);
    assert(one_line(uuid));
    lemma_rewritten_lines_are_lines(content, uuid);
    lemma_lines_of_joined(ls);
    assert forall|i: int| 0 <= i < ls.len() implies crate::text::without_return(#[trigger] ls[i])
        == ls[i] by {
        let line = old_lines[i];
        assert(crate::text::without_return(line) == line);
        if asks(line) {
            let eq = crate::text::first_char(line, '=');
            crate::text::lemma_first_index(line, crate::text::is_char('='), eq);
            crate::text::lemma_trim_start(line.skip(eq + 1));
            let tail = quoted(line).skip(8);
            if tail.len() > 0 {
                assert(ls[i].last() == tail.last());
                assert(tail.last() == line.last());
            } else {
                assert(ls[i].last() == uuid.last());
            }
        }
    }
    assert(crate::text::lines(crate::text::joined(ls)) =~= ls);
    law_rewritten_does_not_ask(content, value);
    assert(rewritten_lines(crate::text::joined(ls), other) =~= ls);
}

/// A character of a text that is `agent_uuid` but for case is no white space and no equals sign.
proof fn lemma_key_char(key: Seq<char>, i: int)
    requires
        crate::text::same_ignoring_case(key, "agent_uuid"@),
        0 <= i < key.len(),
    ensures
        key.len() == 10,
        !crate::text::white_space(key[i]),
        !ends_key(key[i]),
{
    reveal_strlit("agent_uuid");
    assert(crate::text::ascii_lower(key[i]) == crate::text::ascii_lower("agent_uuid"@[i]));
    let word = "agent_uuid"@;
    assert(word[i] == '_' || 'a' <= word[i] <= 'z');
}

/// A line that begins, behind any white space, with `agent_uuid` in any case, up to ASCII white space
/// or the equals sign, and gives it a quoted value that begins with `auto_gen` in any case, asks for
/// a UUID. What is written before the equals sign, the quote, and all that stands behind the
/// placeholder stay as they are, and the UUID stands between them.
pub proof fn law_line_with_placeholder(
    before: Seq<char>,
    key: Seq<char>,
    between: Seq<char>,
    gap: Seq<char>,
    quote: char,
    placeholder: Seq<char>,
    behind: Seq<char>,
    uuid: Seq<char>,
)
    requires
        forall|i: int| 0 <= i < before.len() ==> crate::text::white_space(#[trigger] before[i]),
        crate::text::same_ignoring_case(key, "agent_uuid"@),
        !between.contains('='),
        between.len() > 0 ==> between[0] == ' ' || between[0] == '\t' || between[0] == '\n'
            || between[0] == '\u{c}' || between[0] == '\r',
        forall|i: int| 0 <= i < gap.len() ==> crate::text::white_space(#[trigger] gap[i]),
        quote == '"' || quote == '\'',
        crate::text::same_ignoring_case(placeholder, "auto_gen"@),
    ensures
        asks(before + key + between + seq!['='] + gap + seq![quote] + placeholder + behind),
        rewritten_line(
            before + key + between + seq!['='] + gap + seq![quote] + placeholder + behind,
            uuid,
        ) == before + key + between + seq!['=', ' ', quote] + uuid + behind,
{
    let line = before + key + between + seq!['='] + gap + seq![quote] + placeholder + behind;
    let k = before.len() as int;
    let eq = k + key.len() + between.len();
    let q = eq + 1 + gap.len();
    reveal_strlit("agent_uuid");
    reveal_strlit("auto_gen");
    assert forall|j: int| 0 <= j < k implies crate::text::white_space(#[trigger] line[j]) by {
        assert(line[j] == before[j]);
    }
    assert(line.subrange(k, k + 10) =~= key);
    assert(line[k + 10] == if between.len() > 0 {
        between[0]
    } else {
        '='
    });
    assert forall|j: int| k + 10 <= j < eq implies #[trigger] line[j] != '=' by {
        assert(line[j] == between[j - k - 10]);
        assert(between.contains(between[j - k - 10]));
    }
    assert forall|j: int| eq < j < q implies crate::text::white_space(#[trigger] line[j]) by {
        assert(line[j] == gap[j - eq - 1]);
    }
    assert(line.subrange(q + 1, q + 9) =~= placeholder);
    lemma_line_asks(line, k, eq, q, uuid);
    assert(line.take(eq + 1) =~= before + key + between + seq!['=']);
    assert(line.skip(q + 9) =~= behind);
    assert(rewritten_line(line, uuid) =~= before + key + between + seq!['=', ' ', quote] + uuid
        + behind);
}

/// A line with key, equals sign and quoted placeholder in their places asks for a UUID.
proof fn lemma_line_asks(line: Seq<char>, k: int, eq: int, q: int, uuid: Seq<char>)
    requires
        0 <= k && k + 10 <= eq < q && q + 9 <= line.len(),
        forall|i: int| 0 <= i < k ==> crate::text::white_space(#[trigger] line[i]),
        crate::text::same_ignoring_case(line.subrange(k, k + 10), "agent_uuid"@),
        ends_key(line[k + 10]),
        forall|i: int| k + 10 <= i < eq ==> #[trigger] line[i] != '=',
        line[eq] == '=',
        forall|i: int| eq < i < q ==> crate::text::white_space(#[trigger] line[i]),
        line[q] == '"' || line[q] == '\'',
        crate::text::same_ignoring_case(line.subrange(q + 1, q + 9), "auto_gen"@),
    ensures
        asks(line),
        rewritten_line(line, uuid) == line.take(eq + 1) + seq![' ', line[q]] + uuid + line.skip(
            q + 9,
        ),
{
    let key = line.subrange(k, k + 10);
    lemma_key_char(key, 0);
    assert(line[k] == key[0]);
    lemma_trim_start_at(line, k);
    let t = line.skip(k);
    assert forall|j: int| 0 <= j < 10 implies !key_stop()(#[trigger] t[j]) by {
        assert(t[j] == key[j]);
        lemma_key_char(key, j);
    }
    assert(t[10] == line[k + 10]);
    assert(key_stop()(t[10]));
    crate::text::lemma_first_index(t, key_stop(), 10);
    assert(key_of(line) =~= key);
    assert forall|j: int| 0 <= j < eq implies #[trigger] line[j] != '=' by {
        if j < k {
            assert(crate::text::white_space(line[j]));
        } else if j < k + 10 {
            assert(line[j] == key[j - k]);
            lemma_key_char(key, j - k);
        }
    }
    crate::text::law_first_char(line, '=', eq);
    let after = line.skip(eq + 1);
    assert forall|j: int| 0 <= j < q - eq - 1 implies crate::text::white_space(
        #[trigger] after[j],
    ) by {
        assert(after[j] == line[eq + 1 + j]);
    }
    assert(after[q - eq - 1] == line[q]);
    lemma_trim_start_at(after, q - eq - 1);
    assert(value_of(line) =~= line.skip(q));
    assert(quoted(line) =~= line.skip(q + 1));
    assert(quoted(line).take(8) =~= line.subrange(q + 1, q + 9));
    assert(quoted(line).skip(8) =~= line.skip(q + 9));
}

/// Only such a line asks, and every other line stays as it is: on a line that asks, `agent_uuid` in
/// any case stands at the first index of the result behind nothing but white space, up to ASCII
/// white space or the equals sign; the first equals sign stands at the second; and at the third, with
/// nothing but white space before it, a quote with `auto_gen` in any case behind it.
pub proof fn law_other_lines_stay(line: Seq<char>, uuid: Seq<char>) -> (r: (int, int, int))
    ensures
        !asks(line) ==> rewritten_line(line, uuid) == line,
        asks(line) ==> {
            let (k, eq, q) = r;
            &&& 0 <= k && k + 10 <= eq < q && q + 9 <= line.len()
            &&& forall|i: int| 0 <= i < k ==> crate::text::white_space(#[trigger] line[i])
            &&& crate::text::same_ignoring_case(line.subrange(k, k + 10), "agent_uuid"@)
            &&& line[k + 10] == '=' || line[k + 10] == ' ' || line[k + 10] == '\t' || line[k + 10]
                == '\n' || line[k + 10] == '\u{c}' || line[k + 10] == '\r'
            &&& forall|i: int| 0 <= i < eq ==> #[trigger] line[i] != '='
            &&& line[eq] == '='
            &&& forall|i: int| eq < i < q ==> crate::text::white_space(#[trigger] line[i])
            &&& line[q] == '"' || line[q] == '\''
            &&& crate::text::same_ignoring_case(line.subrange(q + 1, q + 9), "auto_gen"@)
        },
{
    let t = crate::text::trim_start(line);
    let k = line.len() - t.len();
    let eq = crate::text::first_char(line, '=');
    let value = value_of(line);
    let q = line.len() - value.len();
    if asks(line) {
        reveal_strlit("agent_uuid");
        crate::text::lemma_trim_start(line);
        crate::text::lemma_first_index(t, key_stop(), 0);
        let is_eq = crate::text::is_char('=');
        crate::text::lemma_first_index(line, is_eq, 0);
        assert(line[eq] == '=');
        assert forall|i: int| 0 <= i < eq implies #[trigger] line[i] != '=' by {
            assert(!is_eq(line[i]));
        }
        assert(key_of(line).len() == 10);
        let end = crate::text::first_index(t, key_stop());
        assert(end == 10);
        assert(key_of(line) =~= line.subrange(k, k + 10));
        if eq < k {
            assert(crate::text::white_space(line[eq]));
        }
        if eq < k + 10 {
            assert(t[eq - k] == '=');
            assert(key_stop()(t[eq - k]));
        }
        assert(t[10] == line[k + 10]);
        assert(key_stop()(t[10]));
        let after = line.skip(eq + 1);
        crate::text::lemma_trim_start(after);
        assert(value =~= line.skip(q));
        assert forall|i: int| eq < i < q implies crate::text::white_space(#[trigger] line[i]) by {
            assert(after[i - eq - 1] == line[i]);
        }
        assert(value[0] == line[q]);
        assert(quoted(line).take(8) =~= line.subrange(q + 1, q + 9));
    }
    (k, eq, q)
}

/// Rewriting goes line by line: nothing comes of an empty file, and the first line of a file comes
/// rewritten and with a line feed behind it, before what comes of the rest. A carriage return before
/// a line feed is no part of the line.
pub proof fn law_rewritten_line_by_line(line: Seq<char>, rest: Seq<char>, uuid: Seq<char>)
    requires
        forall|i: int| 0 <= i < line.len() ==> #[trigger] line[i] != '\n',
    ensures
        rewritten(seq![], uuid) == Seq::<char>::empty(),
        line.len() > 0 ==> rewritten(line, uuid) == rewritten_line(line, uuid) + seq!['\n'],
        line.len() > 0 && line.last() == '\r' ==> rewritten(line + seq!['\n'] + rest, uuid)
            == rewritten_line(line.take(line.len() - 1), uuid) + seq!['\n'] + rewritten(rest, uuid),
        line.len() == 0 || line.last() != '\r' ==> rewritten(line + seq!['\n'] + rest, uuid)
            == rewritten_line(line, uuid) + seq!['\n'] + rewritten(rest, uuid),
{
    crate::text::law_lines(line, rest);
    assert(rewritten_lines(seq![], uuid) =~= seq![]);
    if line.len() > 0 {
        assert(crate::text::lines(seq![]) =~= seq![]);
        assert(line + seq![] =~= line);
        lemma_first_line(line, line, seq![], uuid);
    }
    let s = line + seq!['\n'] + rest;
    if line.len() > 0 && line.last() == '\r' {
        lemma_first_line(s, line.take(line.len() - 1), rest, uuid);
    } else {
        lemma_first_line(s, line, rest, uuid);
    }
}

proof fn lemma_first_line(s: Seq<char>, line: Seq<char>, rest: Seq<char>, uuid: Seq<char>)
    requires
        crate::text::lines(s) == seq![line] + crate::text::lines(rest),
    ensures
        rewritten(s, uuid) == rewritten_line(line, uuid) + seq!['\n'] + rewritten(rest, uuid),
{
    let all = rewritten_lines(s, uuid);
    assert(all[0] == rewritten_line(line, uuid));
    assert(all.drop_first() =~= rewritten_lines(rest, uuid));
    assert(rewritten(s, uuid) =~= rewritten_line(line, uuid) + seq!['\n'] + rewritten(rest, uuid));
}

} // verus!
