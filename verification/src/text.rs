//! Text operations, their meaning over sequences of characters, and the log lines
//! that the decisions leave behind.

use vstd::prelude::*;
use vstd::utf8::{decode_utf8, is_ascii_chars, valid_utf8};

verus! {

/// The characters with the Unicode property `White_Space`.
pub open spec fn white_space(c: char) -> bool {
    let n = c as u32;
    ||| 0x9 <= n <= 0xd
    ||| n == 0x20
    ||| n == 0x85
    ||| n == 0xa0
    ||| n == 0x1680
    ||| 0x2000 <= n <= 0x200a
    ||| n == 0x2028
    ||| n == 0x2029
    ||| n == 0x202f
    ||| n == 0x205f
    ||| n == 0x3000
}

/// Nothing but white space, or nothing at all.
pub open spec fn blank(s: Seq<char>) -> bool {
    forall|i: int| 0 <= i < s.len() ==> white_space(#[trigger] s[i])
}

/// `s` without its leading white space.
pub open spec fn trimmed_start(s: Seq<char>) -> Seq<char>
    decreases s.len(),
{
    if s.len() > 0 && white_space(s[0]) {
        trimmed_start(s.skip(1))
    } else {
        s
    }
}

/// `s` without its trailing white space.
pub open spec fn trimmed_end(s: Seq<char>) -> Seq<char>
    decreases s.len(),
{
    if s.len() > 0 && white_space(s.last()) {
        trimmed_end(s.drop_last())
    } else {
        s
    }
}

/// `s` without leading and trailing white space.
pub open spec fn trimmed(s: Seq<char>) -> Seq<char> {
    trimmed_end(trimmed_start(s))
}

/// `str::trim` removes the leading and the trailing characters that have the
/// Unicode property `White_Space`, and nothing else.
pub assume_specification[ str::trim ](s: &str) -> (r: &str)
    ensures
        r@ == trimmed(s@),
;

/// The lowercase of an ASCII character: `A` to `Z` become `a` to `z`.
pub open spec fn ascii_lower(c: char) -> char {
    if 'A' <= c <= 'Z' {
        (c as u8 + 32) as char
    } else {
        c
    }
}

/// What `str::to_lowercase` makes of a text with a character outside ASCII.
pub uninterp spec fn unicode_lowercase(s: Seq<char>) -> Seq<char>;

/// The lowercase of a text.
pub open spec fn lowercase(s: Seq<char>) -> Seq<char> {
    if is_ascii_chars(s) {
        s.map_values(|c: char| ascii_lower(c))
    } else {
        unicode_lowercase(s)
    }
}

/// `str::to_lowercase` maps the ASCII letters `A` to `Z` to `a` to `z` and leaves
/// the other ASCII characters as they are. What it makes of a text with other
/// characters follows the Unicode tables and depends on the text alone; beyond
/// that nothing is claimed of it here.
pub assume_specification[ str::to_lowercase ](s: &str) -> (r: String)
    ensures
        r@ == (if is_ascii_chars(s@) {
            s@.map_values(|c: char| ascii_lower(c))
        } else {
            unicode_lowercase(s@)
        }),
;

/// `part` stands in `s` at position `at`.
pub open spec fn occurs_at(s: Seq<char>, part: Seq<char>, at: int) -> bool {
    0 <= at && at + part.len() <= s.len() && s.subrange(at, at + part.len()) == part
}

/// `part` stands somewhere in `s`.
pub open spec fn contains_text(s: Seq<char>, part: Seq<char>) -> bool {
    exists|at: int| occurs_at(s, part, at)
}

/// `str::contains` with a string pattern tells whether the pattern is a
/// sub-slice of the text.
#[verifier::external_body]
pub(crate) fn has_part(s: &str, part: &str) -> (r: bool)
    ensures
        r == contains_text(s@, part@),
{
    s.contains(part)
}

/// `s` with `suffix` removed from its end as often as it stands there.
pub open spec fn without_suffixes(s: Seq<char>, suffix: Seq<char>) -> Seq<char>
    decreases s.len(),
{
    if 0 < suffix.len() <= s.len() && s.skip(s.len() - suffix.len()) == suffix {
        without_suffixes(s.take(s.len() - suffix.len()), suffix)
    } else {
        s
    }
}

/// `str::trim_end_matches` with a string pattern removes the pattern from the end
/// of the text repeatedly, until the text no longer ends with it.
#[verifier::external_body]
pub(crate) fn strip_suffixes<'a>(s: &'a str, suffix: &str) -> (r: &'a str)
    requires
        suffix@.len() > 0,
    ensures
        r@ == without_suffixes(s@, suffix@),
{
    s.trim_end_matches(suffix)
}

/// The order of texts: by the code points of the first characters that differ,
/// and a proper prefix before what it is a prefix of.
pub open spec fn precedes(a: Seq<char>, b: Seq<char>) -> bool
    decreases a.len(),
{
    if b.len() == 0 {
        false
    } else if a.len() == 0 {
        true
    } else if a[0] == b[0] {
        precedes(a.skip(1), b.skip(1))
    } else {
        a[0] < b[0]
    }
}

/// `<` on `str` orders texts lexicographically by their byte values, which is the
/// lexicographic order by code points.
#[verifier::external_body]
pub(crate) fn text_precedes(a: &str, b: &str) -> (r: bool)
    ensures
        r == precedes(a@, b@),
{
    a < b
}

/// What `String::from_utf8_lossy` makes of bytes that are not valid UTF-8.
pub uninterp spec fn repaired_text(bytes: Seq<u8>) -> Seq<char>;

/// The text that a sequence of bytes stands for.
pub open spec fn lossy_text(bytes: Seq<u8>) -> Seq<char> {
    if valid_utf8(bytes) {
        decode_utf8(bytes)
    } else {
        repaired_text(bytes)
    }
}

/// `String::from_utf8_lossy` decodes valid UTF-8 as it is, and puts the replacement
/// character U+FFFD in place of invalid sequences, so that other bytes give a text
/// that holds one. What the rest of that text is depends on the bytes alone; beyond
/// that nothing is claimed of it here.
#[verifier::external_body]
pub(crate) fn text_from_bytes(bytes: &[u8]) -> (r: String)
    ensures
        r@ == (if valid_utf8(bytes@) {
            decode_utf8(bytes@)
        } else {
            repaired_text(bytes@)
        }),
        !valid_utf8(bytes@) ==> r@.contains('\u{fffd}'),
{
    String::from_utf8_lossy(bytes).into_owned()
}

/// How the `Debug` format of `std::time::Duration` writes a number of nanoseconds
/// with two digits after the decimal point.
pub uninterp spec fn elapsed_text(nanos: u64) -> Seq<char>;

/// `format!` with `{:.2?}` on a `std::time::Duration`: the text depends on the
/// number of nanoseconds alone.
#[verifier::external_body]
pub(crate) fn format_elapsed(nanos: u64) -> (r: String)
    ensures
        r@ == elapsed_text(nanos),
{
    format!("{:.2?}", std::time::Duration::from_nanos(nanos))
}

/// The characters of each text.
pub open spec fn texts(v: Seq<String>) -> Seq<Seq<char>> {
    Seq::new(v.len(), |i: int| v[i]@)
}

/// Whether two texts are the same.
pub(crate) fn same_text(a: &str, b: &str) -> (r: bool)
    ensures
        r == (a@ == b@),
{
    a.to_owned() == b.to_owned()
}

/// Whether a text begins with a character.
pub(crate) fn begins_with(s: &str, c: char) -> (r: bool)
    ensures
        r == (s@.len() > 0 && s@[0] == c),
{
    !s.is_empty() && s.get_char(0) == c
}

/// Whether a text ends with a character.
pub(crate) fn ends_with(s: &str, c: char) -> (r: bool)
    ensures
        r == (s@.len() > 0 && s@.last() == c),
{
    let count: usize = s.unicode_len();
    count > 0 && s.get_char(count - 1) == c
}

/// The character of a decimal digit.
pub open spec fn digit(d: int) -> char {
    (0x30 + d) as char
}

/// A number in decimal, without leading zeros.
pub open spec fn decimal(n: nat) -> Seq<char>
    decreases n,
{
    if n < 10 {
        seq![digit(n as int)]
    } else {
        decimal(n / 10).push(digit((n % 10) as int))
    }
}

fn digit_text(d: u64) -> (r: &'static str)
    requires
        d < 10,
    ensures
        r@ == seq![digit(d as int)],
{
    proof {
        reveal_strlit("0");
        reveal_strlit("1");
        reveal_strlit("2");
        reveal_strlit("3");
        reveal_strlit("4");
        reveal_strlit("5");
        reveal_strlit("6");
        reveal_strlit("7");
        reveal_strlit("8");
        reveal_strlit("9");
    }
    match d {
        0 => "0",
        1 => "1",
        2 => "2",
        3 => "3",
        4 => "4",
        5 => "5",
        6 => "6",
        7 => "7",
        8 => "8",
        _ => "9",
    }
}

/// Writes a number in decimal.
pub(crate) fn decimal_text(n: u64) -> (r: String)
    ensures
        r@ == decimal(n as nat),
    decreases n,
{
    let last: &str = digit_text(n % 10);
    if n < 10 {
        last.to_owned()
    } else {
        let head: String = decimal_text(n / 10);
        proof {
            assert(head@.push(digit((n % 10) as int)) == head@ + seq![digit((n % 10) as int)]);
        }
        head.concat(last)
    }
}

/// Texts put one behind the other with a separator between them.
pub open spec fn joined(parts: Seq<Seq<char>>, separator: Seq<char>) -> Seq<char> {
    if parts.len() == 0 {
        Seq::empty()
    } else {
        parts.skip(1).fold_left(parts[0], |acc: Seq<char>, part: Seq<char>| acc + separator + part)
    }
}

/// Puts texts one behind the other with a separator between them.
pub(crate) fn join_texts(parts: &Vec<String>, separator: &str) -> (r: String)
    ensures
        r@ == joined(texts(parts@), separator@),
{
    if parts.len() == 0 {
        return String::new();
    }
    let mut out: String = parts[0].clone();
    let ghost glue = |acc: Seq<char>, part: Seq<char>| acc + separator@ + part;
    let ghost rest = texts(parts@).skip(1);
    let mut i: usize = 1;
    assert(rest.take(0).fold_left(parts@[0]@, glue) == parts@[0]@);
    while i < parts.len()
        invariant
            1 <= i <= parts.len(),
            rest == texts(parts@).skip(1),
            glue == (|acc: Seq<char>, part: Seq<char>| acc + separator@ + part),
            out@ == rest.take(i - 1).fold_left(parts@[0]@, glue),
        decreases parts.len() - i,
    {
        proof {
            assert(rest.take(i as int).drop_last() == rest.take(i - 1));
            assert(rest.take(i as int).last() == parts@[i as int]@);
        }
        out.append(separator);
        out.append(parts[i].as_str());
        i = i + 1;
    }
    assert(rest.take(parts@.len() - 1) == rest);
    out
}

/// Lines for the incident log, in the order in which they are written.
#[derive(Debug)]
pub struct Log {
    pub lines: Vec<String>,
}

impl View for Log {
    type V = Seq<Seq<char>>;

    open spec fn view(&self) -> Seq<Seq<char>> {
        texts(self.lines@)
    }
}

impl Log {
    /// A log without lines.
    pub fn new() -> (r: Log)
        ensures
            r@ == Seq::<Seq<char>>::empty(),
    {
        let r = Log { lines: Vec::new() };
        assert(r@ == Seq::<Seq<char>>::empty());
        r
    }

    /// Writes a line at the end.
    pub fn note(&mut self, line: String)
        ensures
            final(self)@ == old(self)@.push(line@),
    {
        self.lines.push(line);
        assert(self@ == old(self)@.push(line@));
    }

    /// Writes the lines of another log at the end.
    pub fn extend(&mut self, other: Log)
        ensures
            final(self)@ == old(self)@ + other@,
    {
        let ghost added = other@;
        let mut rest = other;
        self.lines.append(&mut rest.lines);
        assert(self@ == old(self)@ + added);
    }
}

// Facts about trimming.

proof fn lemma_trimmed_start(s: Seq<char>)
    ensures
        blank(s) ==> trimmed_start(s).len() == 0,
        !blank(s) ==> trimmed_start(s).len() > 0 && !white_space(trimmed_start(s)[0]),
    decreases s.len(),
{
    if s.len() > 0 && white_space(s[0]) {
        let rest = s.skip(1);
        lemma_trimmed_start(rest);
        if blank(s) {
            assert forall|i: int| 0 <= i < rest.len() implies white_space(#[trigger] rest[i]) by {
                assert(rest[i] == s[i + 1]);
            }
        } else {
            let i = choose|i: int| 0 <= i < s.len() && !white_space(#[trigger] s[i]);
            assert(rest[i - 1] == s[i]);
        }
    }
}

proof fn lemma_trimmed_end(s: Seq<char>)
    requires
        s.len() > 0,
        !white_space(s[0]),
    ensures
        trimmed_end(s).len() > 0,
        trimmed_end(s)[0] == s[0],
    decreases s.len(),
{
    if white_space(s.last()) {
        lemma_trimmed_end(s.drop_last());
    }
}

proof fn lemma_trimmed_start_keeps(s: Seq<char>, c: char)
    requires
        s.contains(c),
        !white_space(c),
    ensures
        trimmed_start(s).contains(c),
    decreases s.len(),
{
    let i = choose|i: int| 0 <= i < s.len() && s[i] == c;
    if white_space(s[0]) {
        assert(s.skip(1)[i - 1] == c);
        lemma_trimmed_start_keeps(s.skip(1), c);
    }
}

proof fn lemma_trimmed_end_keeps(s: Seq<char>, c: char)
    requires
        s.contains(c),
        !white_space(c),
    ensures
        trimmed_end(s).contains(c),
    decreases s.len(),
{
    let i = choose|i: int| 0 <= i < s.len() && s[i] == c;
    if white_space(s.last()) {
        assert(s.drop_last()[i] == c);
        lemma_trimmed_end_keeps(s.drop_last(), c);
    }
}

/// Trimming drops no character but white space.
pub proof fn trimming_keeps_other_characters(s: Seq<char>, c: char)
    requires
        s.contains(c),
        !white_space(c),
    ensures
        trimmed(s).contains(c),
{
    lemma_trimmed_start_keeps(s, c);
    lemma_trimmed_end_keeps(trimmed_start(s), c);
}

/// Trimming leaves nothing exactly where there is nothing but white space.
pub proof fn trimmed_is_empty_only_for_blank(s: Seq<char>)
    ensures
        trimmed(s).len() == 0 <==> blank(s),
{
    lemma_trimmed_start(s);
    if !blank(s) {
        lemma_trimmed_end(trimmed_start(s));
    }
}

proof fn lemma_trimmed_start_padded(front: Seq<char>, s: Seq<char>)
    requires
        blank(front),
    ensures
        trimmed_start(front + s) == trimmed_start(s),
    decreases front.len(),
{
    if front.len() == 0 {
        assert(front + s == s);
    } else {
        let rest = front.skip(1);
        assert forall|i: int| 0 <= i < rest.len() implies white_space(#[trigger] rest[i]) by {
            assert(rest[i] == front[i + 1]);
        }
        assert(white_space(front[0]));
        assert((front + s)[0] == front[0]);
        assert((front + s).skip(1) == rest + s);
        lemma_trimmed_start_padded(rest, s);
    }
}

/// The white space before a text with something else in it ends within that text.
pub proof fn trimmed_start_stops_before(s: Seq<char>, back: Seq<char>)
    requires
        !blank(s),
    ensures
        trimmed_start(s + back) == trimmed_start(s) + back,
        trimmed_start(s).len() > 0,
        trimmed_start(s).last() == s.last(),
    decreases s.len(),
{
    assert((s + back)[0] == s[0]);
    if white_space(s[0]) {
        let rest = s.skip(1);
        assert(!blank(rest)) by {
            let i = choose|i: int| 0 <= i < s.len() && !white_space(#[trigger] s[i]);
            assert(rest[i - 1] == s[i]);
        }
        assert((s + back).skip(1) == rest + back);
        trimmed_start_stops_before(rest, back);
    }
}

proof fn lemma_trimmed_end_padded(s: Seq<char>, back: Seq<char>)
    requires
        blank(back),
    ensures
        trimmed_end(s + back) == trimmed_end(s),
    decreases back.len(),
{
    if back.len() == 0 {
        assert(s + back == s);
    } else {
        let rest = back.drop_last();
        assert forall|i: int| 0 <= i < rest.len() implies white_space(#[trigger] rest[i]) by {
            assert(rest[i] == back[i]);
        }
        assert(white_space(back[back.len() - 1]));
        assert((s + back).last() == back.last());
        assert((s + back).drop_last() == s + rest);
        lemma_trimmed_end_padded(s, rest);
    }
}

/// White space around a text does not change what trimming leaves.
pub proof fn padding_is_trimmed(front: Seq<char>, s: Seq<char>, back: Seq<char>)
    requires
        blank(front),
        blank(back),
    ensures
        trimmed(front + s + back) == trimmed(s),
{
    assert(front + s + back == front + (s + back));
    lemma_trimmed_start_padded(front, s + back);
    if blank(s) {
        assert(blank(s + back));
        trimmed_is_empty_only_for_blank(s);
        trimmed_is_empty_only_for_blank(s + back);
        assert(trimmed(s) == trimmed(s + back));
    } else {
        trimmed_start_stops_before(s, back);
        lemma_trimmed_end_padded(trimmed_start(s), back);
    }
}

proof fn lemma_trimmed_end_is_settled(s: Seq<char>)
    ensures
        trimmed_end(trimmed_end(s)) == trimmed_end(s),
    decreases s.len(),
{
    if s.len() > 0 && white_space(s.last()) {
        lemma_trimmed_end_is_settled(s.drop_last());
    }
}

/// What is trimmed once is trimmed for good.
pub proof fn trimming_is_idempotent(s: Seq<char>)
    ensures
        trimmed(trimmed(s)) == trimmed(s),
{
    trimmed_is_empty_only_for_blank(s);
    lemma_trimmed_start(s);
    if !blank(s) {
        lemma_trimmed_end(trimmed_start(s));
        lemma_trimmed_end_is_settled(trimmed_start(s));
    }
}

// The order of texts.

/// No text comes before itself.
pub proof fn precedes_is_irreflexive(a: Seq<char>)
    ensures
        !precedes(a, a),
    decreases a.len(),
{
    if a.len() > 0 {
        precedes_is_irreflexive(a.skip(1));
    }
}

/// What comes before a text that comes before a third comes before the third.
pub proof fn precedes_is_transitive(a: Seq<char>, b: Seq<char>, c: Seq<char>)
    requires
        precedes(a, b),
        precedes(b, c),
    ensures
        precedes(a, c),
    decreases a.len(),
{
    if a.len() > 0 && a[0] == b[0] && b[0] == c[0] {
        precedes_is_transitive(a.skip(1), b.skip(1), c.skip(1));
    }
}

/// Of two different texts one comes before the other.
pub proof fn precedes_is_total(a: Seq<char>, b: Seq<char>)
    ensures
        a == b || precedes(a, b) || precedes(b, a),
    decreases a.len(),
{
    if a.len() > 0 && b.len() > 0 && a[0] == b[0] {
        precedes_is_total(a.skip(1), b.skip(1));
        if a.skip(1) == b.skip(1) {
            assert(a == seq![a[0]] + a.skip(1));
            assert(b == seq![b[0]] + b.skip(1));
        }
    } else if a.len() == 0 && b.len() == 0 {
        assert(a == b);
    }
}

// Parts of texts, lists of texts and numbers.

/// A text is found in every text that it stands in, whatever comes before it and
/// whatever comes behind it.
pub proof fn a_part_is_found_wherever_it_stands(front: Seq<char>, part: Seq<char>, back: Seq<char>)
    ensures
        contains_text(front + part + back, part),
{
    let s = front + part + back;
    assert(s.subrange(front.len() as int, (front.len() + part.len()) as int) == part);
    assert(occurs_at(s, part, front.len() as int));
}

/// What is found in a text stands between something and something else.
pub proof fn what_is_found_stands_somewhere(s: Seq<char>, part: Seq<char>) -> (cut: (
    Seq<char>,
    Seq<char>,
))
    requires
        contains_text(s, part),
    ensures
        s == cut.0 + part + cut.1,
{
    let at = choose|at: int| occurs_at(s, part, at);
    let cut = (s.take(at), s.skip(at + part.len()));
    assert(s == s.take(at) + s.subrange(at, at + part.len()) + s.skip(at + part.len()));
    cut
}

/// The number that decimal digits stand for.
pub open spec fn number_of(digits: Seq<char>) -> int
    decreases digits.len(),
{
    if digits.len() == 0 {
        0
    } else {
        10 * number_of(digits.drop_last()) + (digits.last() as int - '0' as int)
    }
}

/// A number that is written in decimal is written with digits alone, without zeros in
/// front, and reads as the number that it is.
pub proof fn decimals_read_back(n: nat)
    ensures
        number_of(decimal(n)) == n,
        decimal(n).len() > 0,
        forall|i: int| 0 <= i < decimal(n).len() ==> '0' <= #[trigger] decimal(n)[i] <= '9',
        decimal(n)[0] == '0' ==> n == 0 && decimal(n).len() == 1,
    decreases n,
{
    let last = digit((n % 10) as int);
    assert(last as int == 0x30 + n % 10);
    if n < 10 {
        let one = seq![digit(n as int)];
        assert(decimal(n) == one);
        assert(one.drop_last() == Seq::<char>::empty());
        assert(number_of(Seq::<char>::empty()) == 0);
    } else {
        decimals_read_back(n / 10);
        assert(decimal(n).drop_last() == decimal(n / 10));
        assert(decimal(n)[0] == decimal(n / 10)[0]);
    }
}

/// Texts are put together one by one: a first text stands for itself, and each further
/// one comes behind the separator.
pub proof fn texts_are_joined_one_by_one(
    parts: Seq<Seq<char>>,
    part: Seq<char>,
    separator: Seq<char>,
)
    ensures
        joined(Seq::empty(), separator).len() == 0,
        joined(seq![part], separator) == part,
        parts.len() > 0 ==> joined(parts.push(part), separator) == joined(parts, separator)
            + separator + part,
{
    let glue = |acc: Seq<char>, next: Seq<char>| acc + separator + next;
    assert(seq![part].skip(1) == Seq::<Seq<char>>::empty());
    if parts.len() > 0 {
        let rest = parts.push(part).skip(1);
        assert(rest.drop_last() == parts.skip(1));
        assert(rest.last() == part);
        assert(parts.push(part)[0] == parts[0]);
    }
}

/// A log is viewed as its lines, in their order.
pub proof fn a_log_is_its_lines(log: Log)
    ensures
        log@.len() == log.lines@.len(),
        forall|i: int| 0 <= i < log.lines@.len() ==> #[trigger] log@[i] == log.lines@[i]@,
{
}

} // verus!
