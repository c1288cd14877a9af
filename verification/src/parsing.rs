//! The configuration-file reader: markdown-like sections whose titles
//! name blocks and whose bullet lists give key/value attributes. The
//! first section configures the bar itself; each further section
//! declares one block.

use vstd::prelude::*;

use crate::block::{Actions, Block, BlockBuilder, Font, Offset, Precondition, Signal, TaskKind};
use crate::color::{Color, ColorError};
use crate::config::{FileConfig, GlobalConfig};
use crate::digits::{all_digits, digits_val, parse_u64_digits};
use crate::markup::find_char;
use crate::model::{ActivationLayer, ActiveMonitors, Alignment};
use crate::text::{chars_between, chars_to_string, str_eq, str_to_chars};

verus! {

// ---------------------------------------------------------------------------
// errors
// ---------------------------------------------------------------------------

/// Why a configuration file was rejected.
#[derive(Debug)]
pub enum ParseError {
    /// An attribute line has no `:`.
    Colon(String),
    /// A section was expected to start with a `#` title.
    ExpectedTitle(String),
    /// An attribute line does not start with a bullet.
    ExpectedAttribute(String),
    /// A color value did not parse.
    Color { value: String, error: ColorError },
    InvalidBoolean(String),
    InvalidInteger(String),
    InvalidDuration(String),
    InvalidOffset(String),
    InvalidFont(String),
    InvalidAlignment(String),
    InvalidLayer(String),
    InvalidSignal(String),
    InvalidNative(String),
    MalformedBlock(String),
}

// ---------------------------------------------------------------------------
// titles and lines
// ---------------------------------------------------------------------------

/// A section title: its heading level and its text.
#[derive(Clone, Debug, PartialEq)]
pub struct Title {
    pub level: u8,
    pub title: String,
}

impl Title {
    /// A title with the given level and text.
    pub fn new(level: u8, title: String) -> (r: Title)
        ensures
            r.level == level,
            r.title == title,
    {
        Title { level, title }
    }
}

/// Whether `c` is the line whitespace the reader ignores.
pub open spec fn is_space(c: char) -> bool {
    c == ' ' || c == '\t' || c == '\r'
}

/// `s` with leading and trailing spaces removed.
pub open spec fn spec_trim(s: Seq<char>) -> Seq<char>
    decreases s.len(),
{
    if s.len() == 0 {
        s
    } else if is_space(s[0]) {
        spec_trim(s.skip(1))
    } else if is_space(s.last()) {
        spec_trim(s.drop_last())
    } else {
        s
    }
}

/// `s` with leading and trailing backticks removed.
pub open spec fn spec_trim_ticks(s: Seq<char>) -> Seq<char>
    decreases s.len(),
{
    if s.len() == 0 {
        s
    } else if s[0] == '`' {
        spec_trim_ticks(s.skip(1))
    } else if s.last() == '`' {
        spec_trim_ticks(s.drop_last())
    } else {
        s
    }
}

/// Removes leading and trailing characters matching the spec-level
/// predicate mirrored by `ticks`: spaces when false, backticks when
/// true.
fn trim_chars(chars: &Vec<char>, ticks: bool) -> (r: Vec<char>)
    ensures
        !ticks ==> r@ == spec_trim(chars@),
        ticks ==> r@ == spec_trim_ticks(chars@),
    decreases chars@.len(),
{
    let n = chars.len();
    if n == 0 {
        return Vec::new();
    }
    let first = chars[0];
    let head_match = if ticks {
        first == '`'
    } else {
        first == ' ' || first == '\t' || first == '\r'
    };
    if head_match {
        let rest = chars_between(chars, 1, n);
        proof {
            assert(rest@ =~= chars@.skip(1));
        }
        return trim_chars(&rest, ticks);
    }
    let last = chars[n - 1];
    let tail_match = if ticks {
        last == '`'
    } else {
        last == ' ' || last == '\t' || last == '\r'
    };
    if tail_match {
        let rest = chars_between(chars, 0, n - 1);
        proof {
            assert(rest@ =~= chars@.drop_last());
        }
        return trim_chars(&rest, ticks);
    }
    chars.clone()
}

/// Trims line whitespace from both ends of `s`.
pub fn trim(s: &str) -> (r: String)
    ensures
        r@ == spec_trim(s@),
{
    let chars = str_to_chars(s);
    let trimmed = trim_chars(&chars, false);
    chars_to_string(&trimmed)
}

/// The lines of `s`, split on newlines; a trailing newline does not
/// open a last empty line.
pub open spec fn spec_lines(s: Seq<char>) -> Seq<Seq<char>>
    decreases s.len(),
{
    if s.len() == 0 {
        Seq::empty()
    } else {
        match find_char(s, '\n') {
            Some(j) => {
                let j1: int = if j < 0 {
                    0
                } else if j >= s.len() {
                    s.len() - 1
                } else {
                    j
                };
                seq![s.take(j1)] + spec_lines(s.skip(j1 + 1))
            },
            None => seq![s],
        }
    }
}

/// The first newline a well-formed search reports is in range.
proof fn lemma_find_char_range(s: Seq<char>, c: char)
    ensures
        find_char(s, c) matches Some(j) ==> 0 <= j < s.len() && s[j] == c,
    decreases s.len(),
{
    if s.len() > 0 && s[0] != c {
        lemma_find_char_range(s.skip(1), c);
    }
}

/// If no `c` stands before `k`, the first `c` is at `k` (or absent).
proof fn lemma_find_char_at(t: Seq<char>, c: char, k: int)
    requires
        0 <= k <= t.len(),
        forall|j: int| 0 <= j < k ==> t[j] != c,
    ensures
        k < t.len() && t[k] == c ==> find_char(t, c) == Some(k),
        k == t.len() ==> find_char(t, c) is None,
    decreases t.len(),
{
    if t.len() > 0 {
        if t[0] == c {
        } else {
            assert(forall|j: int| 0 <= j < k - 1 ==> t.skip(1)[j] == t[j + 1]);
            if k > 0 {
                lemma_find_char_at(t.skip(1), c, k - 1);
            } else {
                lemma_find_char_at(t.skip(1), c, 0);
            }
        }
    }
}

/// The lines of `s`.
fn split_lines(s: &str) -> (r: Vec<String>)
    ensures
        r.deep_view() =~~= spec_lines(s@),
{
    let chars = str_to_chars(s);
    let n = chars.len();
    let mut lines: Vec<String> = Vec::new();
    let mut start: usize = 0;
    let mut i: usize = 0;
    proof {
        assert(s@.skip(0) =~= s@);
        assert(lines.deep_view() + spec_lines(s@) =~~= spec_lines(s@));
    }
    while i < n
        invariant
            start <= i <= n,
            n == s@.len(),
            chars@ == s@,
            forall|j: int| start <= j < i ==> s@[j] != '\n',
            spec_lines(s@) =~~= lines.deep_view() + spec_lines(s@.skip(start as int)),
        decreases n - i,
    {
        if chars[i] == '\n' {
            let ghost rest = s@.skip(start as int);
            let line_chars = chars_between(&chars, start, i);
            let line = chars_to_string(&line_chars);
            let ghost pre_dv = lines.deep_view();
            let ghost line_v = line@;
            lines.push(line);
            proof {
                assert(forall|j: int| 0 <= j < rest.len() ==> rest[j] == s@[start + j]);
                lemma_find_char_at(rest, '\n', i - start);
                lemma_find_char_range(rest, '\n');
                assert(rest.take(i - start) =~= s@.subrange(start as int, i as int));
                assert(rest.skip(i - start + 1) =~= s@.skip(i + 1));
                assert(lines.deep_view() =~~= pre_dv.push(line_v));
                assert(spec_lines(s@) =~~= lines.deep_view() + spec_lines(s@.skip(i + 1)));
            }
            start = i + 1;
        }
        i += 1;
    }
    if start < n {
        let ghost rest = s@.skip(start as int);
        let line_chars = chars_between(&chars, start, n);
        let line = chars_to_string(&line_chars);
        let ghost pre_dv = lines.deep_view();
        let ghost line_v = line@;
        lines.push(line);
        proof {
            assert(forall|j: int| 0 <= j < rest.len() ==> rest[j] == s@[start + j]);
            lemma_find_char_at(rest, '\n', n - start);
            assert(rest =~= s@.subrange(start as int, n as int));
            assert(lines.deep_view() =~~= pre_dv.push(line_v));
            assert(spec_lines(s@.skip(start as int)) =~~= seq![rest]);
            assert(spec_lines(s@) =~~= lines.deep_view());
        }
    } else {
        proof {
            assert(s@.skip(start as int).len() == 0);
            assert(spec_lines(s@.skip(start as int)) =~~= Seq::<Seq<char>>::empty());
            assert(spec_lines(s@) =~~= lines.deep_view());
        }
    }
    lines
}

// ---------------------------------------------------------------------------
// key/value lines
// ---------------------------------------------------------------------------

/// Why one attribute line was rejected.
pub enum KvFailure {
    /// No bullet at the front.
    NoBullet,
    /// No colon after the bullet; carries the line's content.
    NoColon(Seq<char>),
}

/// Where a bullet `(  )*[-*]` ends, if the line starts with one.
pub open spec fn bullet_end(s: Seq<char>) -> Option<int>
    decreases s.len(),
{
    if s.len() >= 1 && (s[0] == '-' || s[0] == '*') {
        Some(1)
    } else if s.len() >= 2 && s[0] == ' ' && s[1] == ' ' {
        match bullet_end(s.skip(2)) {
            Some(e) => Some(2 + e),
            None => None,
        }
    } else {
        None
    }
}

/// One attribute line: a bullet, then `key: value`, the value stripped
/// of surrounding backticks; the bullet's indentation gives the level.
pub open spec fn spec_kv_line(line: Seq<char>) -> Result<(Seq<char>, Seq<char>, u8), KvFailure> {
    match bullet_end(line) {
        Some(e) => {
            let rest = spec_trim(line.skip(e));
            match find_char(rest, ':') {
                Some(j) => Ok(
                    (
                        spec_trim(rest.take(j)),
                        spec_trim_ticks(spec_trim(rest.skip(j + 1))),
                        (((e / 2) + 1) % 256) as u8,
                    ),
                ),
                None => Err(KvFailure::NoColon(rest)),
            }
        },
        None => Err(KvFailure::NoBullet),
    }
}

/// One read attribute line: the key, value and level, or the error the
/// line produces when it is asked for.
#[derive(Debug)]
pub enum KvItem {
    Entry(String, String, u8),
    Fail(ParseError),
}

/// Whether the read item means what the grammar says of the line.
pub open spec fn kv_matches(item: KvItem, s: Result<(Seq<char>, Seq<char>, u8), KvFailure>) -> bool {
    match item {
        KvItem::Entry(k, v, l) => s matches Ok(t) && k@ == t.0 && v@ == t.1 && l == t.2,
        KvItem::Fail(e) => match e {
            ParseError::ExpectedAttribute(_) => s matches Err(KvFailure::NoBullet),
            ParseError::Colon(x) => s matches Err(KvFailure::NoColon(r)) && x@ == r,
            _ => false,
        },
    }
}

/// Where the bullet of `chars` ends, if it starts with one.
fn bullet_scan(chars: &Vec<char>) -> (r: Option<usize>)
    ensures
        r is Some <==> bullet_end(chars@) is Some,
        r matches Some(e) ==> bullet_end(chars@) == Some(e as int) && e <= chars@.len(),
{
    let n = chars.len();
    let mut pos: usize = 0;
    proof {
        assert(chars@.skip(0) =~= chars@);
    }
    loop
        invariant
            pos <= n,
            n == chars@.len(),
            bullet_end(chars@) == match bullet_end(chars@.skip(pos as int)) {
                Some(e) => Some(pos + e),
                None => None::<int>,
            },
        ensures
            pos <= n,
            bullet_end(chars@) == match bullet_end(chars@.skip(pos as int)) {
                Some(e) => Some(pos + e),
                None => None::<int>,
            },
            (pos < n && (chars@[pos as int] == '-' || chars@[pos as int] == '*')) || bullet_end(
                chars@.skip(pos as int),
            ) is None,
        decreases n - pos,
    {
        let ghost rest = chars@.skip(pos as int);
        proof {
            assert(forall|j: int| 0 <= j < rest.len() ==> rest[j] == chars@[pos + j]);
        }
        if pos < n && (chars[pos] == '-' || chars[pos] == '*') {
            break ;
        }
        if n - pos >= 2 && chars[pos] == ' ' && chars[pos + 1] == ' ' {
            proof {
                assert(rest.skip(2) =~= chars@.skip(pos + 2));
            }
            pos += 2;
        } else {
            proof {
                assert(bullet_end(rest) is None);
            }
            break ;
        }
    }
    if pos < n && (chars[pos] == '-' || chars[pos] == '*') {
        proof {
            let rest = chars@.skip(pos as int);
            assert(rest[0] == chars@[pos as int]);
            assert(bullet_end(rest) == Some(1int));
        }
        Some(pos + 1)
    } else {
        None
    }
}

/// The first `c` at or after `pos` in `chars`.
fn find_char_from(chars: &Vec<char>, pos: usize, c: char) -> (r: Option<usize>)
    requires
        pos <= chars@.len(),
    ensures
        match r {
            Some(j) => find_char(chars@.skip(pos as int), c) == Some(j as int) && pos + j
                < chars@.len(),
            None => find_char(chars@.skip(pos as int), c) is None,
        },
{
    let mut k = pos;
    loop
        invariant
            pos <= k <= chars@.len(),
            find_char(chars@.skip(pos as int), c) == match find_char(chars@.skip(k as int), c) {
                Some(j) => Some(k - pos + j),
                None => None::<int>,
            },
        ensures
            (k == chars@.len() && find_char(chars@.skip(pos as int), c) is None) || (k
                < chars@.len() && chars@[k as int] == c && find_char(chars@.skip(pos as int), c)
                == Some(k - pos as int)),
        decreases chars@.len() - k,
    {
        if k == chars.len() {
            proof {
                assert(chars@.skip(k as int).len() == 0);
            }
            break ;
        }
        if chars[k] == c {
            proof {
                assert(chars@.skip(k as int)[0] == chars@[k as int]);
            }
            break ;
        }
        proof {
            assert(chars@.skip(k as int)[0] == chars@[k as int]);
            assert(chars@.skip(k as int).skip(1) =~= chars@.skip(k + 1));
        }
        k += 1;
    }
    if k == chars.len() {
        None
    } else {
        Some(k - pos)
    }
}

/// Reads one attribute line.
fn parse_kv_line(line: &str) -> (r: KvItem)
    ensures
        kv_matches(r, spec_kv_line(line@)),
{
    let chars = str_to_chars(line);
    match bullet_scan(&chars) {
        Option::None => KvItem::Fail(ParseError::ExpectedAttribute(line.to_owned())),
        Option::Some(e) => {
            let after = chars_between(&chars, e, chars.len());
            proof {
                assert(after@ =~= line@.skip(e as int));
            }
            let rest = trim_chars(&after, false);
            match find_char_from(&rest, 0, ':') {
                Option::None => {
                    proof {
                        assert(rest@.skip(0) =~= rest@);
                    }
                    KvItem::Fail(ParseError::Colon(chars_to_string(&rest)))
                },
                Option::Some(j) => {
                    proof {
                        assert(rest@.skip(0) =~= rest@);
                    }
                    let key_part = chars_between(&rest, 0, j);
                    proof {
                        assert(key_part@ =~= rest@.take(j as int));
                    }
                    let key = trim_chars(&key_part, false);
                    let value_part = chars_between(&rest, j + 1, rest.len());
                    proof {
                        assert(value_part@ =~= rest@.skip(j + 1));
                    }
                    let value_trimmed = trim_chars(&value_part, false);
                    let value = trim_chars(&value_trimmed, true);
                    let level: u8 = (((e / 2) + 1) % 256) as u8;
                    KvItem::Entry(chars_to_string(&key), chars_to_string(&value), level)
                },
            }
        },
    }
}

// ---------------------------------------------------------------------------
// sections
// ---------------------------------------------------------------------------

/// The first line at or after `pos` that is not exactly empty.
pub open spec fn skip_empty(lines: Seq<Seq<char>>, pos: int) -> int
    decreases lines.len() - pos,
{
    if pos < 0 || pos >= lines.len() {
        pos
    } else if lines[pos].len() == 0 {
        skip_empty(lines, pos + 1)
    } else {
        pos
    }
}

/// The first line at or after `pos` that is blank once trimmed — where
/// the section's attribute list ends.
pub open spec fn section_end(lines: Seq<Seq<char>>, pos: int) -> int
    decreases lines.len() - pos,
{
    if pos < 0 || pos >= lines.len() {
        pos
    } else if spec_trim(lines[pos]).len() == 0 {
        pos
    } else {
        section_end(lines, pos + 1)
    }
}

/// How many `#` the line starts with.
pub open spec fn leading_hashes(s: Seq<char>) -> int
    decreases s.len(),
{
    if s.len() > 0 && s[0] == '#' {
        1 + leading_hashes(s.skip(1))
    } else {
        0
    }
}

/// The attribute lines of one section, read in order and handed out one
/// by one.
#[derive(Debug)]
pub struct KeyValues {
    pub items: Vec<KvItem>,
}

impl KeyValues {
    /// The next attribute, or `None` when the section is exhausted.
    pub fn next(&mut self) -> (r: Option<Result<(String, String, u8), ParseError>>)
        ensures
            old(self).items@.len() == 0 <==> r is None,
            r is None ==> *final(self) == *old(self),
            old(self).items@.len() > 0 ==> {
                &&& final(self).items@ == old(self).items@.skip(1)
                &&& match old(self).items@[0] {
                    KvItem::Entry(k, v, l) => r == Some(
                        Result::<(String, String, u8), ParseError>::Ok((k, v, l)),
                    ),
                    KvItem::Fail(e) => r == Some(
                        Result::<(String, String, u8), ParseError>::Err(e),
                    ),
                }
            },
    {
        if self.items.len() == 0 {
            return None;
        }
        let item = self.items.remove(0);
        match item {
            KvItem::Entry(k, v, l) => Some(Ok((k, v, l))),
            KvItem::Fail(e) => Some(Err(e)),
        }
    }
}

/// Reads a configuration file section by section.
#[derive(Debug)]
pub struct Parser {
    pub lines: Vec<String>,
    pub pos: usize,
}

impl Parser {
    /// The lines being read.
    pub open spec fn view_lines(&self) -> Seq<Seq<char>> {
        self.lines.deep_view()
    }

    /// The reader is positioned inside its input.
    pub open spec fn wf(&self) -> bool {
        self.pos <= self.view_lines().len()
    }

    /// A reader over the lines of `s`, at the beginning.
    pub fn new(s: &str) -> (r: Parser)
        ensures
            r.view_lines() =~~= spec_lines(s@),
            r.pos == 0,
            r.wf(),
    {
        Parser { lines: split_lines(s), pos: 0 }
    }

    /// Reads the next section: empty lines, a `#` title, empty lines,
    /// then every attribute line up to a blank line (consumed) or the
    /// end. `Ok(None)` at the end of the file; an error if the first
    /// non-empty line is no title.
    #[verifier::rlimit(100)]
    pub fn next_section(&mut self) -> (r: Result<Option<(Title, KeyValues)>, ParseError>)
        requires
            old(self).wf(),
        ensures
            final(self).wf(),
            final(self).view_lines() == old(self).view_lines(),
            ({
                let lv = old(self).view_lines();
                let p0 = skip_empty(lv, old(self).pos as int);
                &&& (p0 >= lv.len() ==> {
                    &&& r matches Ok(x) && x is None
                    &&& final(self).pos == lv.len()
                })
                &&& (p0 < lv.len() && leading_hashes(lv[p0]) == 0 ==> {
                    &&& r matches Err(e) && (e matches ParseError::ExpectedTitle(t) && t@ == lv[p0])
                    &&& final(self).pos == p0 + 1
                })
                &&& (p0 < lv.len() && leading_hashes(lv[p0]) > 0 ==> {
                    let h = leading_hashes(lv[p0]);
                    let q = skip_empty(lv, p0 + 1);
                    let e = section_end(lv, q);
                    &&& r matches Ok(x)
                    &&& x matches Some(pair)
                    &&& pair.0.level == ((h % 256) as u8)
                    &&& pair.0.title@ == spec_trim(lv[p0].skip(h))
                    &&& pair.1.items@.len() == e - q
                    &&& forall|i: int|
                        0 <= i < e - q ==> kv_matches(
                            #[trigger] pair.1.items@[i],
                            spec_kv_line(lv[q + i]),
                        )
                    &&& final(self).pos == (if e < lv.len() {
                        e + 1
                    } else {
                        e
                    })
                })
            }),
    {
        let ghost lv = self.view_lines();
        let n = self.lines.len();
        // skip exactly-empty lines
        while self.pos < n && self.lines[self.pos].as_str().is_empty()
            invariant
                self.pos <= n,
                n == lv.len(),
                self.view_lines() == lv,
                self.lines == old(self).lines,
                skip_empty(lv, old(self).pos as int) == skip_empty(lv, self.pos as int),
            decreases n - self.pos,
        {
            proof {
                assert(lv[self.pos as int] == self.lines@[self.pos as int]@);
            }
            self.pos = self.pos + 1;
        }
        proof {
            if self.pos < n {
                assert(lv[self.pos as int] == self.lines@[self.pos as int]@);
                assert(skip_empty(lv, self.pos as int) == self.pos);
            } else {
                assert(skip_empty(lv, self.pos as int) == self.pos);
            }
        }
        if self.pos == n {
            return Ok(None);
        }
        let ghost p0 = self.pos as int;
        let title_line = self.lines[self.pos].clone();
        self.pos = self.pos + 1;
        let chars = str_to_chars(title_line.as_str());
        // count the leading hashes
        let mut h: usize = 0;
        proof {
            assert(chars@.skip(0) =~= chars@);
        }
        while h < chars.len() && chars[h] == '#'
            invariant
                h <= chars@.len(),
                chars@ == title_line@,
                title_line@ == lv[p0],
                forall|j: int| 0 <= j < h ==> chars@[j] == '#',
                leading_hashes(chars@) == h + leading_hashes(chars@.skip(h as int)),
            decreases chars@.len() - h,
        {
            proof {
                assert(chars@.skip(h as int)[0] == chars@[h as int]);
                assert(chars@.skip(h as int).skip(1) =~= chars@.skip(h + 1));
            }
            h += 1;
        }
        proof {
            if h < chars@.len() {
                assert(chars@.skip(h as int)[0] == chars@[h as int]);
                assert(leading_hashes(chars@.skip(h as int)) == 0);
            } else {
                assert(chars@.skip(h as int).len() == 0);
                assert(leading_hashes(chars@.skip(h as int)) == 0);
            }
            assert(leading_hashes(lv[p0]) == h);
        }
        if h == 0 {
            return Err(ParseError::ExpectedTitle(title_line));
        }
        let after = chars_between(&chars, h, chars.len());
        proof {
            assert(after@ =~= lv[p0].skip(h as int));
        }
        let title_text = trim_chars(&after, false);
        let level: u8 = (h % 256) as u8;
        let title = Title { level, title: chars_to_string(&title_text) };
        // skip exactly-empty lines again
        let ghost p1 = self.pos as int;
        while self.pos < n && self.lines[self.pos].as_str().is_empty()
            invariant
                self.pos <= n,
                n == lv.len(),
                self.view_lines() == lv,
                self.lines == old(self).lines,
                skip_empty(lv, p1) == skip_empty(lv, self.pos as int),
            decreases n - self.pos,
        {
            proof {
                assert(lv[self.pos as int] == self.lines@[self.pos as int]@);
            }
            self.pos = self.pos + 1;
        }
        proof {
            if self.pos < n {
                assert(lv[self.pos as int] == self.lines@[self.pos as int]@);
            }
            assert(skip_empty(lv, p1) == self.pos);
        }
        let ghost q = self.pos as int;
        // collect the attribute lines up to a blank line or the end
        let mut items: Vec<KvItem> = Vec::new();
        while self.pos < n && !trim(self.lines[self.pos].as_str()).as_str().is_empty()
            invariant
                q <= self.pos <= n,
                n == lv.len(),
                self.view_lines() == lv,
                self.lines == old(self).lines,
                section_end(lv, q) == section_end(lv, self.pos as int),
                items@.len() == self.pos - q,
                forall|i: int|
                    0 <= i < self.pos - q ==> kv_matches(
                        #[trigger] items@[i],
                        spec_kv_line(lv[q + i]),
                    ),
            decreases n - self.pos,
        {
            proof {
                assert(lv[self.pos as int] == self.lines@[self.pos as int]@);
                assert(spec_trim(lv[self.pos as int]).len() > 0);
            }
            let item = parse_kv_line(self.lines[self.pos].as_str());
            items.push(item);
            self.pos = self.pos + 1;
        }
        proof {
            if self.pos < n {
                assert(lv[self.pos as int] == self.lines@[self.pos as int]@);
            }
            assert(section_end(lv, q) == self.pos);
        }
        if self.pos < n {
            // consume the blank line that ended the section
            self.pos = self.pos + 1;
        }
        Ok(Some((title, KeyValues { items })))
    }
}

// ---------------------------------------------------------------------------
// values
// ---------------------------------------------------------------------------

/// Reads a boolean word.
fn parse_bool(s: &str) -> (r: Option<bool>)
    ensures
        r == Some(true) <==> s@ == "true"@,
        r == Some(false) <==> s@ == "false"@,
        r is None <==> !(s@ == "true"@ || s@ == "false"@),
{
    proof {
        reveal_strlit("true");
        reveal_strlit("false");
        assert("true"@.len() == 4 && "false"@.len() == 5);
    }
    if str_eq(s, "true") {
        Some(true)
    } else if str_eq(s, "false") {
        Some(false)
    } else {
        None
    }
}

/// Reads an unsigned number bounded by `max`.
fn parse_bounded(s: &str, max: u64) -> (r: Option<u64>)
    ensures
        r is Some <==> (s@.len() > 0 && all_digits(s@) && digits_val(s@) <= max as nat),
        r matches Some(v) ==> v == digits_val(s@) && v <= max,
{
    let chars = str_to_chars(s);
    match parse_u64_digits(chars.as_slice()) {
        Option::Some(v) if v <= max => Some(v),
        _ => None,
    }
}

impl ActivationLayer {
    /// Reads a layer choice: `all` (either case) or a layer number.
    pub fn from_name(s: &str) -> (r: Option<ActivationLayer>)
        ensures
            r == Some(ActivationLayer::All) <==> (s@ == "all"@ || s@ == "All"@),
            r matches Some(l) ==> (l matches ActivationLayer::L(v) ==> all_digits(s@) && v
                == digits_val(s@)),
            r is None <==> !(s@ == "all"@ || s@ == "All"@ || (s@.len() > 0 && all_digits(s@)
                && digits_val(s@) <= u16::MAX as nat)),
    {
        proof {
            reveal_strlit("all");
            reveal_strlit("All");
            assert("all"@.len() == 3 && "All"@.len() == 3);
            assert("all"@[0] == 'a' && "All"@[0] == 'A');
        }
        if str_eq(s, "all") || str_eq(s, "All") {
            return Some(ActivationLayer::All);
        }
        proof {
            if s@.len() > 0 && all_digits(s@) {
                assert(crate::digits::is_digit(s@[0]));
            }
        }
        match parse_bounded(s, u16::MAX as u64) {
            Option::Some(v) => Some(ActivationLayer::L(v as u16)),
            Option::None => None,
        }
    }
}

// ---------------------------------------------------------------------------
// the bar section
// ---------------------------------------------------------------------------

impl FileConfig {
    /// Folds the first section's attributes into the bar configuration:
    /// colors, fonts, geometry, the separator, and — under a `colors`
    /// key — the named palette. Unknown keys are skipped; a bad value is
    /// the section's error.
    pub fn from_kvs(kvs: KeyValues) -> (r: Result<FileConfig, ParseError>)
        ensures
            r matches Ok(c) ==> c.wf(),
    {
        let mut c = FileConfig::new();
        let mut in_colors = false;
        let mut kvs = kvs;
        loop
            invariant
                c.wf(),
            decreases kvs.items@.len(),
        {
            let next = kvs.next();
            match next {
                Option::None => {
                    return Ok(c);
                },
                Option::Some(Result::Err(e)) => {
                    return Err(e);
                },
                Option::Some(Result::Ok((key, value, level))) => {
                    let ghost c0 = c;
                    in_colors = in_colors && level > 1;
                    proof {
                        reveal_strlit("background");
                        reveal_strlit("bg");
                        reveal_strlit("B");
                        reveal_strlit("foreground");
                        reveal_strlit("fg");
                        reveal_strlit("F");
                        reveal_strlit("underline");
                        reveal_strlit("un");
                        reveal_strlit("U");
                        reveal_strlit("font");
                        reveal_strlit("f");
                        reveal_strlit("bottom");
                        reveal_strlit("b");
                        reveal_strlit("underline_width");
                        reveal_strlit("u");
                        reveal_strlit("separator");
                        reveal_strlit("height");
                        reveal_strlit("h");
                        reveal_strlit("name");
                        reveal_strlit("n");
                        reveal_strlit("colors");
                        reveal_strlit("colours");
                        reveal_strlit("c");
                    }
                    let k = key.as_str();
                    if str_eq(k, "background") || str_eq(k, "bg") || str_eq(k, "B") {
                        match Color::parse_config(value.as_str()) {
                            Result::Ok(col) => {
                                c.background = Some(col);
                            },
                            Result::Err(error) => {
                                return Err(ParseError::Color { value, error });
                            },
                        }
                    } else if str_eq(k, "foreground") || str_eq(k, "fg") || str_eq(k, "F") {
                        match Color::parse_config(value.as_str()) {
                            Result::Ok(col) => {
                                c.foreground = Some(col);
                            },
                            Result::Err(error) => {
                                return Err(ParseError::Color { value, error });
                            },
                        }
                    } else if str_eq(k, "underline") || str_eq(k, "un") || str_eq(k, "U") {
                        match Color::parse_config(value.as_str()) {
                            Result::Ok(col) => {
                                c.underline = Some(col);
                            },
                            Result::Err(error) => {
                                return Err(ParseError::Color { value, error });
                            },
                        }
                    } else if str_eq(k, "font") || str_eq(k, "f") {
                        c.fonts.push(value);
                    } else if str_eq(k, "bottom") || str_eq(k, "b") {
                        let t = trim(value.as_str());
                        match parse_bool(t.as_str()) {
                            Option::Some(b) => {
                                c.bottom = b;
                            },
                            Option::None => {
                                return Err(ParseError::InvalidBoolean(value));
                            },
                        }
                    } else if str_eq(k, "underline_width") || str_eq(k, "u") {
                        let t = trim(value.as_str());
                        match parse_bounded(t.as_str(), u32::MAX as u64) {
                            Option::Some(v) => {
                                c.underline_width = Some(v as u32);
                            },
                            Option::None => {
                                return Err(ParseError::InvalidInteger(value));
                            },
                        }
                    } else if str_eq(k, "separator") {
                        c.separator = Some(value);
                    } else if str_eq(k, "height") || str_eq(k, "h") {
                        let t = trim(value.as_str());
                        match parse_bounded(t.as_str(), u32::MAX as u64) {
                            Option::Some(v) => {
                                c.height = Some(v as u32);
                            },
                            Option::None => {
                                return Err(ParseError::InvalidInteger(value));
                            },
                        }
                    } else if str_eq(k, "name") || str_eq(k, "n") {
                        c.name = Some(value);
                    } else if str_eq(k, "colors") || str_eq(k, "colours") || str_eq(k, "c") {
                        in_colors = true;
                    } else if level == 2 && in_colors {
                        match Color::parse_config(value.as_str()) {
                            Result::Ok(col) => {
                                let _previous = c.set_color(k, col);
                            },
                            Result::Err(error) => {
                                return Err(ParseError::Color { value, error });
                            },
                        }
                    }
                    proof {
                        if c.colors == c0.colors {
                            assert(c.spec_colors() =~= c0.spec_colors());
                        }
                    }
                    assert(c.wf());
                },
            }
        }
    }
}

// ---------------------------------------------------------------------------
// block sections
// ---------------------------------------------------------------------------

/// What kind of content a block section declared.
enum ContentKind {
    Fixed,
    Cmd,
    Longlived,
    NativeName,
}

impl Block {
    /// Folds one section's attributes into a block: decorations, click
    /// actions, timing, layer and monitor policy, and exactly one
    /// content key (`static`, `cmd`, `persistent` or `native`) plus an
    /// alignment. `rt_min` and `rt_max` bound the signal numbers the
    /// platform offers. Unknown keys are skipped.
    #[verifier::rlimit(100)]
    pub fn from_kvs(
        title: Title,
        n_monitors: u8,
        kvs: KeyValues,
        palette: &FileConfig,
        rt_min: i32,
        rt_max: i32,
    ) -> (r: Result<Block, ParseError>)
        requires
            n_monitors >= 1,
            palette.wf(),
        ensures
            r matches Ok(b) ==> b.wf() && b.title == title,
            r matches Ok(b) ==> (b.signal matches Signal::Num(n) ==> rt_min + n < rt_max),
    {
        let mut decorations = crate::block::TextDecorations::none();
        let mut builder = BlockBuilder::new();
        let mut actions = Actions::new();
        let mut alignment: Option<Alignment> = None;
        let mut cmd: Option<(String, ContentKind)> = None;
        let mut interval: Option<u64> = None;
        let mut kvs = kvs;
        loop
            invariant
                actions.wf(),
                palette.wf(),
                n_monitors >= 1,
                builder.active_in matches Some(m) ==> m.wf(),
                builder.signal matches Some(s) ==> (s matches Signal::Num(n) ==> rt_min + n
                    < rt_max),
            decreases kvs.items@.len(),
        {
            let next = kvs.next();
            let (key, value) = match next {
                Option::None => {
                    break ;
                },
                Option::Some(Result::Err(e)) => {
                    return Err(e);
                },
                Option::Some(Result::Ok((key, value, _level))) => (key, value),
            };
            proof {
                reveal_strlit("background");
                reveal_strlit("bg");
                reveal_strlit("foreground");
                reveal_strlit("fg");
                reveal_strlit("underline");
                reveal_strlit("un");
                reveal_strlit("font");
                reveal_strlit("offset");
                reveal_strlit("left-click");
                reveal_strlit("middle-click");
                reveal_strlit("right-click");
                reveal_strlit("scroll-up");
                reveal_strlit("scroll-down");
                reveal_strlit("interval");
                reveal_strlit("command");
                reveal_strlit("cmd");
                reveal_strlit("static");
                reveal_strlit("persistent");
                reveal_strlit("native");
                reveal_strlit("alignment");
                reveal_strlit("align");
                reveal_strlit("signal");
                reveal_strlit("raw");
                reveal_strlit("multi_monitor");
                reveal_strlit("layer");
                reveal_strlit("pre_condition");
                reveal_strlit("file-exists");
            }
            let k = key.as_str();
            if str_eq(k, "background") || str_eq(k, "bg") {
                match lookup_color(palette, value.as_str()) {
                    Result::Ok(col) => {
                        decorations.bg = Some(col);
                    },
                    Result::Err(error) => {
                        return Err(ParseError::Color { value, error });
                    },
                }
            } else if str_eq(k, "foreground") || str_eq(k, "fg") {
                match lookup_color(palette, value.as_str()) {
                    Result::Ok(col) => {
                        decorations.fg = Some(col);
                    },
                    Result::Err(error) => {
                        return Err(ParseError::Color { value, error });
                    },
                }
            } else if str_eq(k, "underline") || str_eq(k, "un") {
                match lookup_color(palette, value.as_str()) {
                    Result::Ok(col) => {
                        decorations.underline = Some(col);
                    },
                    Result::Err(error) => {
                        return Err(ParseError::Color { value, error });
                    },
                }
            } else if str_eq(k, "font") {
                match Font::try_new(value.as_str()) {
                    Option::Some(f) => {
                        builder.font = Some(f);
                    },
                    Option::None => {
                        return Err(ParseError::InvalidFont(value));
                    },
                }
            } else if str_eq(k, "offset") {
                match Offset::try_new(value.as_str()) {
                    Option::Some(o) => {
                        builder.offset = Some(o);
                    },
                    Option::None => {
                        return Err(ParseError::InvalidOffset(value));
                    },
                }
            } else if str_eq(k, "left-click") {
                actions.set(0, value);
            } else if str_eq(k, "middle-click") {
                actions.set(1, value);
            } else if str_eq(k, "right-click") {
                actions.set(2, value);
            } else if str_eq(k, "scroll-up") {
                actions.set(3, value);
            } else if str_eq(k, "scroll-down") {
                actions.set(4, value);
            } else if str_eq(k, "interval") {
                match parse_bounded(value.as_str(), u64::MAX) {
                    Option::Some(v) => {
                        interval = Some(v);
                    },
                    Option::None => {
                        return Err(ParseError::InvalidDuration(value));
                    },
                }
            } else if str_eq(k, "command") || str_eq(k, "cmd") {
                cmd = Some((value, ContentKind::Cmd));
            } else if str_eq(k, "static") {
                cmd = Some((value, ContentKind::Fixed));
            } else if str_eq(k, "persistent") {
                cmd = Some((value, ContentKind::Longlived));
            } else if str_eq(k, "native") {
                cmd = Some((value, ContentKind::NativeName));
            } else if str_eq(k, "alignment") || str_eq(k, "align") {
                match Alignment::from_name(value.as_str()) {
                    Option::Some(a) => {
                        alignment = Some(a);
                    },
                    Option::None => {
                        return Err(ParseError::InvalidAlignment(value));
                    },
                }
            } else if str_eq(k, "signal") {
                match parse_bool(value.as_str()) {
                    Option::Some(_) => {
                        builder.signal = Some(Signal::Any);
                    },
                    Option::None => {
                        match parse_bounded(value.as_str(), i32::MAX as u64) {
                            Option::Some(v) => {
                                let num = v as i32;
                                if crate::block::valid_rt_signum(rt_min, rt_max, num) {
                                    builder.signal = Some(Signal::Num(num));
                                } else {
                                    return Err(ParseError::InvalidSignal(value));
                                }
                            },
                            Option::None => {
                                return Err(ParseError::InvalidSignal(value));
                            },
                        }
                    },
                }
            } else if str_eq(k, "raw") {
                match parse_bool(value.as_str()) {
                    Option::Some(b) => {
                        builder.raw = Some(b);
                    },
                    Option::None => {
                        return Err(ParseError::InvalidBoolean(value));
                    },
                }
            } else if str_eq(k, "multi_monitor") {
                match parse_bool(value.as_str()) {
                    Option::Some(b) => {
                        builder.active_in = Some(
                            if b {
                                ActiveMonitors::MonitorCount(n_monitors)
                            } else {
                                ActiveMonitors::All
                            },
                        );
                    },
                    Option::None => {
                        return Err(ParseError::InvalidBoolean(value));
                    },
                }
            } else if str_eq(k, "layer") {
                match ActivationLayer::from_name(value.as_str()) {
                    Option::Some(l) => {
                        builder.layer = Some(l);
                    },
                    Option::None => {
                        return Err(ParseError::InvalidLayer(value));
                    },
                }
            } else if str_eq(k, "pre_condition") {
                let chars = str_to_chars(value.as_str());
                let (cond, args) = match find_char_from(&chars, 0, ' ') {
                    Option::Some(j) => {
                        assert(j < chars@.len());
                        let cond_chars = chars_between(&chars, 0, j);
                        let mut after = j;
                        if after < chars.len() {
                            after = after + 1;
                        }
                        let arg_chars = chars_between(&chars, after, chars.len());
                        (chars_to_string(&cond_chars), chars_to_string(&arg_chars))
                    },
                    Option::None => (value, String::new()),
                };
                if str_eq(cond.as_str(), "file-exists") && !args.as_str().is_empty() {
                    builder.precondition = Some(Precondition::FileExists(args));
                } else {
                    return Err(ParseError::MalformedBlock(cond));
                }
            }
        }
        let (value, kind, alignment) = match (cmd, alignment) {
            (Option::Some((value, kind)), Option::Some(a)) => (value, kind, a),
            _ => {
                return Err(
                    ParseError::MalformedBlock(
                        String::from_str("missing content (cmd, persistent, native, static)"),
                    ),
                );
            },
        };
        builder.decorations = Some(decorations);
        let task: TaskKind = match kind {
            ContentKind::Fixed => TaskKind::Static,
            ContentKind::Cmd => {
                match interval {
                    Option::Some(secs) => TaskKind::Timed(secs),
                    Option::None => {
                        if builder.has_signal() {
                            TaskKind::Timed(u64::MAX)
                        } else {
                            return Err(
                                ParseError::MalformedBlock(
                                    String::from_str("missing either signal or interval"),
                                ),
                            );
                        }
                    },
                }
            },
            ContentKind::Longlived => TaskKind::Persistent,
            ContentKind::NativeName => {
                match crate::native::new(value.as_str()) {
                    Option::Some(t) => t,
                    Option::None => {
                        return Err(ParseError::InvalidNative(value));
                    },
                }
            },
        };
        let block = builder.build(title, value, alignment, actions, task);
        proof {
            assert(block.active_in.wf());
        }
        Ok(block)
    }
}

/// A block color value: a palette name, or a literal color.
fn lookup_color(palette: &FileConfig, value: &str) -> (r: Result<Color, crate::color::ColorError>)
    requires
        palette.wf(),
    ensures
        palette.spec_color_of(value@) matches Some(c) ==> r == Result::<
            Color,
            crate::color::ColorError,
        >::Ok(c),
        palette.spec_color_of(value@) is None ==> r == crate::color::spec_parse_config_color(
            value@,
        ),
{
    match palette.get_color(value) {
        Option::Some(c) => Ok(*c),
        Option::None => Color::parse_config(value),
    }
}

// ---------------------------------------------------------------------------
// the whole file
// ---------------------------------------------------------------------------

/// Reads a whole configuration: the first section configures the bar,
/// every further section declares one block. The result pairs the merged
/// global configuration (its layer count set to one past the highest
/// layer any block names) with the blocks in their alignment buckets.
pub fn parse(
    config: &str,
    overrides: GlobalConfig,
    rt_min: i32,
    rt_max: i32,
) -> (r: Result<(GlobalConfig, crate::block::Config), ParseError>)
    requires
        overrides.file_config.wf(),
    ensures
        r matches Ok(p) ==> {
            &&& p.0.wf()
            &&& p.1.wf()
            &&& p.0.n_layers >= 1
            &&& forall|a: Alignment, i: int|
                0 <= i < p.1.spec_bucket(a).len() ==> (#[trigger] p.1.spec_bucket(a)[i]).alignment
                    == a
            &&& forall|a: Alignment, i: int|
                0 <= i < p.1.spec_bucket(a).len() ==> ((#[trigger] p.1.spec_bucket(a)[i]).layer
                    matches ActivationLayer::L(l) ==> l < p.0.n_layers)
            &&& (p.0.n_layers == 1 || exists|a: Alignment, i: int|
                0 <= i < p.1.spec_bucket(a).len() && (#[trigger] p.1.spec_bucket(a)[i]).layer
                    == ActivationLayer::L((p.0.n_layers - 1) as u16))
        },
{
    let mut parser = Parser::new(config);
    let first = parser.next_section();
    let file_config = match first {
        Result::Err(e) => {
            return Err(e);
        },
        Result::Ok(Option::None) => FileConfig::new(),
        Result::Ok(Option::Some((_title, kvs))) => {
            match FileConfig::from_kvs(kvs) {
                Result::Ok(c) => c,
                Result::Err(e) => {
                    return Err(e);
                },
            }
        },
    };
    let mut global_config = GlobalConfig::new(file_config, overrides);
    let mut blocks = crate::block::Config::new();
    let outputs = global_config.cmdline.outputs.len();
    let n_monitors: u8 = if outputs == 0 {
        1
    } else if outputs > u8::MAX as usize {
        u8::MAX
    } else {
        outputs as u8
    };
    let mut n_layers: u16 = 0;
    loop
        invariant
            parser.wf(),
            global_config.wf(),
            blocks.wf(),
            n_monitors >= 1,
            n_layers < u16::MAX,
            forall|a: Alignment, i: int|
                0 <= i < blocks.spec_bucket(a).len() ==> (#[trigger] blocks.spec_bucket(
                    a,
                )[i]).alignment == a,
            forall|a: Alignment, i: int|
                0 <= i < blocks.spec_bucket(a).len() ==> ((#[trigger] blocks.spec_bucket(
                    a,
                )[i]).layer matches ActivationLayer::L(l) ==> l <= n_layers),
            n_layers == 0 || exists|a: Alignment, i: int|
                0 <= i < blocks.spec_bucket(a).len() && (#[trigger] blocks.spec_bucket(a)[i]).layer
                    == ActivationLayer::L(n_layers),
        decreases parser.view_lines().len() - parser.pos,
    {
        let ghost pos0 = parser.pos;
        let section = parser.next_section();
        proof {
            let lv = parser.view_lines();
            lemma_skip_empty_ge(lv, pos0 as int);
            lemma_skip_empty_ge(lv, skip_empty(lv, pos0 as int) + 1);
            lemma_section_end_ge(
                lv,
                skip_empty(lv, skip_empty(lv, pos0 as int) + 1),
            );
        }
        match section {
            Result::Err(e) => {
                return Err(e);
            },
            Result::Ok(Option::None) => {
                break ;
            },
            Result::Ok(Option::Some((title, kvs))) => {
                proof {
                    let lv = parser.view_lines();
                    let p0s = skip_empty(lv, pos0 as int);
                    assert(p0s < lv.len());
                    lemma_leading_hashes_nonneg(lv[p0s]);
                    assert(leading_hashes(lv[p0s]) > 0);
                    assert(parser.pos > pos0);
                }
                let block = match Block::from_kvs(
                    title,
                    n_monitors,
                    kvs,
                    &global_config.file_config,
                    rt_min,
                    rt_max,
                ) {
                    Result::Ok(b) => b,
                    Result::Err(e) => {
                        return Err(e);
                    },
                };
                match block.layer {
                    ActivationLayer::L(l) => {
                        // one more than the highest layer must still be a
                        // layer count; the numeric ceiling cannot be named
                        if l == u16::MAX {
                            return Err(ParseError::InvalidLayer(String::from_str("65535")));
                        }
                        if l > n_layers {
                            n_layers = l;
                        }
                    },
                    ActivationLayer::All => {},
                }
                let ghost before = blocks;
                let ghost pushed = block;
                blocks.push(block);
                proof {
                    assert forall|a: Alignment, i: int|
                        0 <= i < blocks.spec_bucket(a).len() implies (#[trigger] blocks.spec_bucket(
                        a,
                    )[i]).alignment == a by {
                        if a == pushed.alignment && i == blocks.spec_bucket(a).len() - 1 {
                        } else {
                            assert(blocks.spec_bucket(a)[i] == before.spec_bucket(a)[i]);
                        }
                    }
                    assert forall|a: Alignment, i: int|
                        0 <= i < blocks.spec_bucket(a).len() implies ((
                    #[trigger] blocks.spec_bucket(a)[i]).layer matches ActivationLayer::L(l)
                        ==> l <= n_layers) by {
                        if !(a == pushed.alignment && i == blocks.spec_bucket(a).len() - 1) {
                            assert(blocks.spec_bucket(a)[i] == before.spec_bucket(a)[i]);
                        }
                    }
                    if n_layers > 0 {
                        if pushed.layer == ActivationLayer::L(n_layers) {
                            let a = pushed.alignment;
                            assert(blocks.spec_bucket(a)[blocks.spec_bucket(a).len() - 1].layer
                                == ActivationLayer::L(n_layers));
                        } else {
                            let (a0, i0) = choose|a0: Alignment, i0: int|
                                0 <= i0 < before.spec_bucket(a0).len() && (
                                #[trigger] before.spec_bucket(a0)[i0]).layer
                                    == ActivationLayer::L(n_layers);
                            assert(blocks.spec_bucket(a0)[i0] == before.spec_bucket(a0)[i0]);
                        }
                    }
                }
            },
        }
    }
    global_config.n_layers = n_layers + 1;
    Ok((global_config, blocks))
}

/// A hash count is never negative.
proof fn lemma_leading_hashes_nonneg(s: Seq<char>)
    ensures
        leading_hashes(s) >= 0,
    decreases s.len(),
{
    if s.len() > 0 && s[0] == '#' {
        lemma_leading_hashes_nonneg(s.skip(1));
    }
}

/// Skipping empty lines never moves backward.
proof fn lemma_skip_empty_ge(lv: Seq<Seq<char>>, pos: int)
    ensures
        skip_empty(lv, pos) >= pos,
    decreases lv.len() - pos,
{
    if 0 <= pos < lv.len() && lv[pos].len() == 0 {
        lemma_skip_empty_ge(lv, pos + 1);
    }
}

/// Scanning for a section's end never moves backward.
proof fn lemma_section_end_ge(lv: Seq<Seq<char>>, pos: int)
    ensures
        section_end(lv, pos) >= pos,
    decreases lv.len() - pos,
{
    if 0 <= pos < lv.len() && spec_trim(lv[pos]).len() != 0 {
        lemma_section_end_ge(lv, pos + 1);
    }
}

} // verus!
