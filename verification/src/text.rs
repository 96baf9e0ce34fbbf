//! Text as sequences of characters: white space, trimming, ASCII case, lines and decimals.

use vstd::prelude::*;

verus! {

/// The characters of Unicode's White_Space property.
pub open spec fn white_space(c: char) -> bool {
    ||| '\u{9}' <= c <= '\u{d}'
    ||| c == ' '
    ||| c == '\u{85}'
    ||| c == '\u{a0}'
    ||| c == '\u{1680}'
    ||| '\u{2000}' <= c <= '\u{200a}'
    ||| c == '\u{2028}'
    ||| c == '\u{2029}'
    ||| c == '\u{202f}'
    ||| c == '\u{205f}'
    ||| c == '\u{3000}'
}

/// `s` without the white space at its start.
pub open spec fn trim_start(s: Seq<char>) -> Seq<char>
    decreases s.len(),
{
    if s.len() > 0 && white_space(s[0]) {
        trim_start(s.drop_first())
    } else {
        s
    }
}

/// `s` without the white space at its end.
pub open spec fn trim_end(s: Seq<char>) -> Seq<char>
    decreases s.len(),
{
    if s.len() > 0 && white_space(s.last()) {
        trim_end(s.drop_last())
    } else {
        s
    }
}

/// `s` without the white space at either end.
pub open spec fn trim(s: Seq<char>) -> Seq<char> {
    trim_end(trim_start(s))
}

/// `c` with an ASCII capital made small.
pub open spec fn ascii_lower(c: char) -> char {
    if 'A' <= c <= 'Z' {
        ((c as u32) + 32) as char
    } else {
        c
    }
}

/// Whether `a` and `b` are the same but for the case of ASCII letters.
pub open spec fn same_ignoring_case(a: Seq<char>, b: Seq<char>) -> bool {
    &&& a.len() == b.len()
    &&& forall|i: int| 0 <= i < a.len() ==> ascii_lower(#[trigger] a[i]) == ascii_lower(b[i])
}

/// The index of the first character that `stop` picks, or the length of `s` where it picks none.
pub open spec fn first_index(s: Seq<char>, stop: spec_fn(char) -> bool) -> int
    decreases s.len(),
{
    if s.len() == 0 || stop(s[0]) {
        0
    } else {
        1 + first_index(s.drop_first(), stop)
    }
}

/// The test for being `wanted`.
pub open spec fn is_char(wanted: char) -> spec_fn(char) -> bool {
    |c: char| c == wanted
}

/// The index of the first `wanted`, or the length of `s` where there is none.
pub open spec fn first_char(s: Seq<char>, wanted: char) -> int {
    first_index(s, is_char(wanted))
}

/// A line without the carriage return that stood before its line feed.
pub open spec fn without_return(line: Seq<char>) -> Seq<char> {
    if line.len() > 0 && line.last() == '\r' {
        line.drop_last()
    } else {
        line
    }
}

/// The lines of `s`. A line ends in a line feed, or in a carriage return and a line feed; what
/// follows the last line feed is a line too, unless it is empty.
pub open spec fn lines(s: Seq<char>) -> Seq<Seq<char>>
    decreases s.len(),
{
    let end = first_char(s, '\n');
    if s.len() == 0 {
        seq![]
    } else if 0 <= end < s.len() {
        seq![without_return(s.take(end))] + lines(s.skip(end + 1))
    } else {
        seq![s]
    }
}

/// Lines put together, each with a line feed behind it.
pub open spec fn joined(lines: Seq<Seq<char>>) -> Seq<char>
    decreases lines.len(),
{
    if lines.len() == 0 {
        seq![]
    } else {
        lines[0].push('\n') + joined(lines.drop_first())
    }
}

/// The character of a decimal digit.
pub open spec fn digit(d: nat) -> char {
    ((d + 48) as u32) as char
}

/// `n` in decimal, without leading zeros.
pub open spec fn decimal(n: nat) -> Seq<char>
    decreases n,
{
    if n < 10 {
        seq![digit(n)]
    } else {
        decimal(n / 10).push(digit(n % 10))
    }
}

/// `first_index` is the one index before which `stop` picks nothing, and at which it picks or the
/// text ends.
pub proof fn lemma_first_index(s: Seq<char>, stop: spec_fn(char) -> bool, i: int)
    ensures
        0 <= first_index(s, stop) <= s.len(),
        forall|j: int| 0 <= j < first_index(s, stop) ==> !stop(#[trigger] s[j]),
        first_index(s, stop) < s.len() ==> stop(s[first_index(s, stop)]),
        ({
            &&& 0 <= i <= s.len()
            &&& forall|j: int| 0 <= j < i ==> !stop(#[trigger] s[j])
            &&& i < s.len() ==> stop(s[i])
        }) ==> i == first_index(s, stop),
    decreases s.len(),
{
    if s.len() == 0 || stop(s[0]) {
    } else {
        let rest = s.drop_first();
        lemma_first_index(rest, stop, i - 1);
        let k = first_index(rest, stop);
        assert forall|j: int| 0 <= j < k + 1 implies !stop(#[trigger] s[j]) by {
            if j > 0 {
                assert(!stop(rest[j - 1]));
            }
        }
        if 0 <= i <= s.len() && (forall|j: int| 0 <= j < i ==> !stop(#[trigger] s[j])) && (i
            < s.len() ==> stop(s[i])) {
            assert forall|j: int| 0 <= j < i - 1 implies !stop(#[trigger] rest[j]) by {
                assert(!stop(s[j + 1]));
            }
        }
    }
}

/// What trimming the start of a text leaves is its end, from the first character on that is no
/// white space.
pub proof fn lemma_trim_start(s: Seq<char>)
    ensures
        trim_start(s).len() <= s.len(),
        trim_start(s) == s.skip(s.len() - trim_start(s).len()),
        forall|j: int|
            0 <= j < s.len() - trim_start(s).len() ==> white_space(
                #[trigger] s[j],
            ),
        trim_start(s).len() > 0 ==> !white_space(
            trim_start(s)[0],
        ),
    decreases s.len(),
{
    if s.len() > 0 && white_space(s[0]) {
        lemma_trim_start(s.drop_first());
        let t = trim_start(s);
        assert forall|j: int| 0 <= j < s.len() - t.len() implies white_space(
            #[trigger] s[j],
        ) by {
            if j > 0 {
                assert(s.drop_first()[j - 1] == s[j]);
            }
        }
        assert(s.drop_first().skip(s.len() - 1 - t.len()) =~= s.skip(s.len() - t.len()));
    } else {
        assert(s.skip(0) =~= s);
    }
}

/// What trimming the end of a text leaves is its start, up to the last character that is no white
/// space.
pub proof fn lemma_trim_end(s: Seq<char>)
    ensures
        trim_end(s).len() <= s.len(),
        trim_end(s) == s.take(trim_end(s).len() as int),
        trim_end(s).len() > 0 ==> !white_space(
            trim_end(s).last(),
        ),
    decreases s.len(),
{
    if s.len() > 0 && white_space(s.last()) {
        lemma_trim_end(s.drop_last());
        let t = trim_end(s);
        assert(s.drop_last().take(t.len() as int) =~= s.take(t.len() as int));
    } else {
        assert(s.take(s.len() as int) =~= s);
    }
}

/// Whether `c` is Unicode white space.
pub fn is_white_space(c: char) -> (r: bool)
    ensures
        r == white_space(c),
{
    ('\u{9}' <= c && c <= '\u{d}') || c == ' ' || c == '\u{85}' || c == '\u{a0}' || c == '\u{1680}'
        || ('\u{2000}' <= c && c <= '\u{200a}') || c == '\u{2028}' || c == '\u{2029}' || c
        == '\u{202f}' || c == '\u{205f}' || c == '\u{3000}'
}

/// The characters of `s`, one by one.
pub fn chars_of(s: &str) -> (r: Vec<char>)
    ensures
        r@ == s@,
{
    let mut r: Vec<char> = Vec::new();
    for c in it: s.chars()
        invariant
            it.seq() == s@,
            r@ == s@.take(it.index()),
    {
        r.push(c);
        assert(s@.take(it.index() + 1) =~= s@.take(it.index()).push(s@[it.index()]));
    }
    assert(s@.take(s@.len() as int) =~= s@);
    r
}

/// Whether `a` and `b` hold the same characters.
pub fn same_text(a: &str, b: &str) -> (r: bool)
    ensures
        r == (a@ == b@),
{
    a.to_owned() == b.to_owned()
}

/// `c` with an ASCII capital made small.
fn to_lower(c: char) -> (r: char)
    ensures
        r == ascii_lower(c),
{
    if 'A' <= c && c <= 'Z' {
        let code: u8 = c as u8;
        (code + 32) as char
    } else {
        c
    }
}

/// Whether `a` and `b` are the same but for the case of ASCII letters.
pub fn equal_ignoring_case(a: &str, b: &str) -> (r: bool)
    ensures
        r == same_ignoring_case(a@, b@),
{
    let x: Vec<char> = chars_of(a);
    let y: Vec<char> = chars_of(b);
    if x.len() != y.len() {
        return false;
    }
    let mut i: usize = 0;
    while i < x.len()
        invariant
            x@ == a@,
            y@ == b@,
            x@.len() == y@.len(),
            i <= x@.len(),
            forall|j: int| 0 <= j < i ==> ascii_lower(#[trigger] a@[j]) == ascii_lower(b@[j]),
        decreases x@.len() - i,
    {
        if to_lower(x[i]) != to_lower(y[i]) {
            assert(ascii_lower(a@[i as int]) != ascii_lower(b@[i as int]));
            return false;
        }
        i = i + 1;
    }
    true
}

/// The first index of `wanted` in `s`, or the length of `s`.
pub fn find_char(s: &Vec<char>, wanted: char) -> (r: usize)
    ensures
        r == first_char(s@, wanted),
{
    let mut i: usize = 0;
    while i < s.len() && s[i] != wanted
        invariant
            i <= s@.len(),
            forall|j: int| 0 <= j < i ==> s@[j] != wanted,
        decreases s@.len() - i,
    {
        i = i + 1;
    }
    proof {
        lemma_first_index(s@, is_char(wanted), i as int);
    }
    i
}

/// `n` in decimal, without leading zeros.
pub fn to_decimal(n: u64) -> (r: String)
    ensures
        r@ == decimal(n as nat),
    decreases n,
{
    let mut r: String = if n < 10 { String::new() } else { to_decimal(n / 10) };
    let d: u64 = n % 10;
    let last: &str = if d == 0 { "0" } else if d == 1 { "1" } else if d == 2 { "2" } else if d == 3 {
        "3"
    } else if d == 4 { "4" } else if d == 5 { "5" } else if d == 6 { "6" } else if d == 7 {
        "7"
    } else if d == 8 { "8" } else { "9" };
    r.append(last);
    proof {
        reveal_strlit("0");
        reveal_strlit("1");
        reveal_strlit("2");
        reveal_strlit("3");
        reveal_strlit("4");
        reveal_strlit("5");
        reveal_strlit("6");
        reveal_strlit("7");
        reveal_strlit("8");
        reveal_strlit("9");
        assert(last@ =~= seq![digit(d as nat)]);
        assert(r@ =~= decimal(n as nat));
    }
    r
}

/// The index at which the white space of `s` that begins at `from` ends.
pub fn skip_white_space(s: &Vec<char>, from: usize) -> (r: usize)
    requires
        from <= s@.len(),
    ensures
        from <= r <= s@.len(),
        s@.skip(r as int) == trim_start(s@.skip(from as int)),
{
    let mut i: usize = from;
    while i < s.len() && is_white_space(s[i])
        invariant
            from <= i <= s@.len(),
            trim_start(s@.skip(i as int)) == trim_start(s@.skip(from as int)),
        decreases s@.len() - i,
    {
        assert(s@.skip(i as int).drop_first() =~= s@.skip(i + 1));
        i = i + 1;
    }
    i
}

/// `s` without the white space at either end.
pub fn trimmed(s: &str) -> (r: &str)
    ensures
        r@ == trim(s@),
{
    let chars: Vec<char> = chars_of(s);
    assert(chars@.skip(0) =~= chars@);
    let from: usize = skip_white_space(&chars, 0);
    let mut to: usize = chars.len();
    assert(chars@.subrange(from as int, to as int) =~= chars@.skip(from as int));
    while to > from && is_white_space(chars[to - 1])
        invariant
            from <= to <= chars@.len(),
            trim_end(chars@.subrange(from as int, to as int)) == trim(chars@),
        decreases to,
    {
        assert(chars@.subrange(from as int, to as int).drop_last() =~= chars@.subrange(
            from as int,
            to - 1,
        ));
        to = to - 1;
    }
    s.substring_char(from, to)
}

/// The lines of `s`.
pub fn split_lines(s: &str) -> (r: Vec<String>)
    ensures
        r@.map_values(|l: String| l@) == lines(s@),
{
    let chars: Vec<char> = chars_of(s);
    let mut r: Vec<String> = Vec::new();
    let mut from: usize = 0;
    assert(chars@.skip(0) =~= chars@);
    assert(r@.map_values(|l: String| l@) + lines(chars@) =~= lines(chars@));
    while from < chars.len()
        invariant
            chars@ == s@,
            from <= chars@.len(),
            r@.map_values(|l: String| l@) + lines(chars@.skip(from as int)) == lines(chars@),
        decreases chars@.len() - from,
    {
        let ghost before = r@.map_values(|l: String| l@);
        let ghost rest = chars@.skip(from as int);
        let mut end: usize = from;
        while end < chars.len() && chars[end] != '\n'
            invariant
                from <= end <= chars@.len(),
                forall|j: int| from <= j < end ==> chars@[j] != '\n',
            decreases chars@.len() - end,
        {
            end = end + 1;
        }
        proof {
            lemma_first_index(rest, is_char('\n'), end - from);
        }
        if end < chars.len() {
            let to: usize = if end > from && chars[end - 1] == '\r' { end - 1 } else { end };
            let line: String = s.substring_char(from, to).to_owned();
            proof {
                assert(rest.take(end - from).len() == end - from);
                assert(line@ =~= without_return(rest.take(end - from)));
                assert(rest.skip(end - from + 1) =~= chars@.skip(end + 1));
                assert(before.push(line@) + lines(chars@.skip(end + 1)) =~= before + lines(rest));
            }
            r.push(line);
            proof {
                assert(r@.map_values(|l: String| l@) =~= before.push(line@));
            }
            from = end + 1;
        } else {
            let line: String = s.substring_char(from, end).to_owned();
            proof {
                assert(line@ =~= rest);
                assert(chars@.skip(end as int) =~= Seq::<char>::empty());
                assert(before.push(line@) + lines(chars@.skip(end as int)) =~= before + lines(
                    rest,
                ));
            }
            r.push(line);
            proof {
                assert(r@.map_values(|l: String| l@) =~= before.push(line@));
            }
            from = end;
        }
    }
    proof {
        assert(chars@.skip(from as int) =~= Seq::<char>::empty());
        assert(r@.map_values(|l: String| l@) =~= lines(chars@));
    }
    r
}

/// White space is tab to carriage return, space, next line, no-break space, the Ogham space, the
/// spaces of general punctuation with line and paragraph separator, and the ideographic space.
pub proof fn law_white_space(c: char)
    ensures
        white_space(c) <==> (9 <= c as u32 <= 13 || c as u32 == 32 || c as u32 == 133 || c as u32
            == 160 || c as u32 == 5760 || 8192 <= c as u32 <= 8202 || c as u32 == 8232 || c as u32
            == 8233 || c as u32 == 8239 || c as u32 == 8287 || c as u32 == 12288),
{
}

/// A text from which white space is taken at both ends, up to a character on either side that is
/// none, is what trimming gives; and where there is nothing else, nothing is left.
pub proof fn law_trim(s: Seq<char>, from: int, to: int)
    requires
        0 <= from <= to <= s.len(),
        forall|i: int| 0 <= i < from ==> white_space(#[trigger] s[i]),
        forall|i: int| to <= i < s.len() ==> white_space(#[trigger] s[i]),
        from < to ==> !white_space(s[from]) && !white_space(s[to - 1]),
    ensures
        trim(s) == s.subrange(from, to),
{
    let t = trim_start(s);
    let k = s.len() - t.len();
    lemma_trim_start(s);
    if from < to {
        if from < k {
            assert(white_space(s[from]));
        }
        if k < from {
            assert(t[0] == s[k]);
            assert(white_space(s[k]));
        }
        lemma_trim_end_at(t, to - from);
        assert(trim(s) =~= s.subrange(from, to));
    } else {
        assert forall|i: int| 0 <= i < t.len() implies white_space(#[trigger] t[i]) by {
            assert(t[i] == s[k + i]);
            if k + i < from {
                assert(white_space(s[k + i]));
            }
        }
        if t.len() > 0 {
            assert(white_space(t[0]));
        }
        assert(trim(s) =~= s.subrange(from, to));
    }
}

proof fn lemma_trim_end_at(s: Seq<char>, to: int)
    requires
        0 < to <= s.len(),
        !white_space(s[to - 1]),
        forall|i: int| to <= i < s.len() ==> white_space(#[trigger] s[i]),
    ensures
        trim_end(s) == s.take(to),
    decreases s.len(),
{
    if to < s.len() {
        let front = s.drop_last();
        assert(white_space(s[s.len() - 1]));
        assert forall|i: int| to <= i < front.len() implies white_space(#[trigger] front[i]) by {
            assert(front[i] == s[i]);
        }
        lemma_trim_end_at(front, to);
        assert(front.take(to) =~= s.take(to));
    } else {
        assert(s.take(to) =~= s);
    }
}

/// Trimming one end of a text takes the white space there, up to a character that is none or to the
/// other end, and nothing else.
pub proof fn law_trim_one_end(s: Seq<char>, at: int)
    requires
        0 <= at <= s.len(),
    ensures
        ({
            &&& forall|i: int| 0 <= i < at ==> white_space(#[trigger] s[i])
            &&& at < s.len() ==> !white_space(s[at])
        }) ==> trim_start(s) == s.skip(at),
        ({
            &&& forall|i: int| at <= i < s.len() ==> white_space(#[trigger] s[i])
            &&& at > 0 ==> !white_space(s[at - 1])
        }) ==> trim_end(s) == s.take(at),
{
    lemma_trim_start(s);
    let k = s.len() - trim_start(s).len();
    if (forall|i: int| 0 <= i < at ==> white_space(#[trigger] s[i])) && (at < s.len()
        ==> !white_space(s[at])) {
        if k < at {
            assert(trim_start(s)[0] == s[k]);
            assert(white_space(s[k]));
        }
        if at < k {
            assert(white_space(s[at]));
        }
    }
    if (forall|i: int| at <= i < s.len() ==> white_space(#[trigger] s[i])) && (at > 0
        ==> !white_space(s[at - 1])) {
        if at > 0 {
            lemma_trim_end_at(s, at);
        } else {
            lemma_trim_end(s);
            let t = trim_end(s);
            if t.len() > 0 {
                assert(t.last() == s[t.len() - 1]);
                assert(white_space(s[t.len() - 1]));
            }
            assert(t =~= s.take(0));
        }
    }
}

/// Texts are the same but for case exactly if they are of one length, and at each index have one
/// character, or an ASCII letter as capital in one and small in the other.
pub proof fn law_same_ignoring_case(a: Seq<char>, b: Seq<char>)
    ensures
        same_ignoring_case(a, b) <==> {
            &&& a.len() == b.len()
            &&& forall|i: int|
                0 <= i < a.len() ==> {
                    ||| #[trigger] a[i] == b[i]
                    ||| 65 <= a[i] as u32 <= 90 && b[i] as u32 == a[i] as u32 + 32
                    ||| 65 <= b[i] as u32 <= 90 && a[i] as u32 == b[i] as u32 + 32
                }
        },
{
    assert forall|i: int| 0 <= i < a.len() && a.len() == b.len() implies (ascii_lower(a[i])
        == ascii_lower(b[i]) <==> {
        ||| #[trigger] a[i] == b[i]
        ||| 65 <= a[i] as u32 <= 90 && b[i] as u32 == a[i] as u32 + 32
        ||| 65 <= b[i] as u32 <= 90 && a[i] as u32 == b[i] as u32 + 32
    }) by {
        lemma_ascii_lower(a[i]);
        lemma_ascii_lower(b[i]);
    }
}

proof fn lemma_ascii_lower(c: char)
    ensures
        65 <= c as u32 <= 90 ==> ascii_lower(c) as u32 == c as u32 + 32,
        !(65 <= c as u32 <= 90) ==> ascii_lower(c) == c,
{
}

/// The first index of a character is the one at which it stands and before which it does not; where
/// it stands nowhere, it is the length of the text.
pub proof fn law_first_char(s: Seq<char>, wanted: char, i: int)
    requires
        0 <= i <= s.len(),
        forall|j: int| 0 <= j < i ==> #[trigger] s[j] != wanted,
        i < s.len() ==> s[i] == wanted,
    ensures
        first_char(s, wanted) == i,
{
    assert forall|j: int| 0 <= j < i implies !is_char(wanted)(#[trigger] s[j]) by {}
    lemma_first_index(s, is_char(wanted), i);
}

/// The lines of a text: none of an empty one; a text without line feeds is one line; and what stands
/// before the first line feed is a line, without the carriage return at its end if there is one,
/// before the lines of the rest.
pub proof fn law_lines(line: Seq<char>, rest: Seq<char>)
    requires
        forall|i: int| 0 <= i < line.len() ==> #[trigger] line[i] != '\n',
    ensures
        lines(seq![]) == Seq::<Seq<char>>::empty(),
        line.len() > 0 ==> lines(line) == seq![line],
        line.len() > 0 && line.last() == '\r' ==> lines(line + seq!['\n'] + rest) == seq![
            line.take(line.len() - 1),
        ] + lines(rest),
        line.len() == 0 || line.last() != '\r' ==> lines(line + seq!['\n'] + rest) == seq![line]
            + lines(rest),
{
    let s = line + seq!['\n'] + rest;
    let n = line.len() as int;
    law_first_char(line, '\n', n);
    assert forall|j: int| 0 <= j < n implies #[trigger] s[j] != '\n' by {
        assert(s[j] == line[j]);
    }
    law_first_char(s, '\n', n);
    assert(s.take(n) =~= line);
    assert(s.skip(n + 1) =~= rest);
    if n > 0 {
        assert(line.drop_last() =~= line.take(n - 1));
    }
}

/// Putting lines together: nothing comes of none, and one more line stands behind the others, with a
/// line feed behind it.
pub proof fn law_joined(ls: Seq<Seq<char>>, line: Seq<char>)
    ensures
        joined(seq![]) == Seq::<char>::empty(),
        joined(ls.push(line)) == joined(ls) + line + seq!['\n'],
    decreases ls.len(),
{
    if ls.len() == 0 {
        assert(ls.push(line).drop_first() =~= seq![]);
        assert(joined(ls.push(line).drop_first()) =~= seq![]);
        assert(ls.push(line)[0] == line);
        assert(joined(ls.push(line)) =~= joined(ls) + line + seq!['\n']);
    } else {
        law_joined(ls.drop_first(), line);
        assert(ls.push(line).drop_first() =~= ls.drop_first().push(line));
        assert(joined(ls.push(line)) =~= joined(ls) + line + seq!['\n']);
    }
}

/// Decimals: a number below ten is its digit, and a digit behind the decimals of a number that is
/// not 0 makes ten times that number and the digit.
pub proof fn law_decimal(n: nat, d: nat)
    requires
        d < 10,
    ensures
        decimal(d).len() == 1 && decimal(d)[0] as u32 == 48 + d,
        n > 0 ==> {
            &&& decimal(10 * n + d).len() == decimal(n).len() + 1
            &&& decimal(10 * n + d).drop_last() == decimal(n)
            &&& decimal(10 * n + d).last() as u32 == 48 + d
        },
{
    if n > 0 {
        assert((10 * n + d) / 10 == n);
        assert((10 * n + d) % 10 == d);
        assert(decimal(10 * n + d).drop_last() =~= decimal(n));
    }
}

} // verus!
