//! The markup-line reader: the inverse side of the markup codec. A
//! rendered line is split back into blocks — alignment switches, color
//! attributes, click actions, and the text between them.

use vstd::prelude::*;

use crate::color::{spec_parse_color, Color};
use crate::digits::{digit_value, is_digit};
use crate::model::Alignment;
use crate::text::{chars_between, chars_to_string, str_to_chars};
use vstd::pervasive::VecAdditionalExecFns;

verus! {

// ---------------------------------------------------------------------------
// the attribute grammar
// ---------------------------------------------------------------------------

/// One parsed attribute, as the grammar sees it.
pub enum MAttr {
    Al(Alignment),
    Fg(Color),
    Bg(Color),
    Ul(Color),
    Action(nat, Seq<char>),
}

/// An alignment switch at the front: `%{l}`, `%{c}` or `%{r}`, four
/// characters.
pub open spec fn spec_alignment_at(s: Seq<char>) -> Option<(Alignment, int)> {
    if s.len() >= 4 && s[0] == '%' && s[1] == '{' && s[3] == '}' {
        if s[2] == 'l' {
            Some((Alignment::Left, 4))
        } else if s[2] == 'c' {
            Some((Alignment::Middle, 4))
        } else if s[2] == 'r' {
            Some((Alignment::Right, 4))
        } else {
            None
        }
    } else {
        None
    }
}

/// A color attribute at the front: `%{`, the attribute's name, an
/// optional `:`, a color literal in either dialect, `}`.
pub open spec fn spec_color_attr_at(s: Seq<char>, attr: Seq<char>) -> Option<(Color, int)> {
    if s.len() >= 2 && s[0] == '%' && s[1] == '{' && s.skip(2).len() >= attr.len() && s.skip(
        2,
    ).take(attr.len() as int) == attr {
        let u = s.skip(2 + attr.len() as int);
        let colon: int = if u.len() >= 1 && u[0] == ':' {
            1
        } else {
            0
        };
        let v = u.skip(colon);
        match spec_parse_color(v) {
            Some((c, n)) => if n < v.len() && v[n] == '}' {
                Some((c, 2 + attr.len() as int + colon + n + 1))
            } else {
                None
            },
            None => None,
        }
    } else {
        None
    }
}

/// The first position of `c` in `s`.
pub open spec fn find_char(s: Seq<char>, c: char) -> Option<int>
    decreases s.len(),
{
    if s.len() == 0 {
        None
    } else if s[0] == c {
        Some(0)
    } else {
        match find_char(s.skip(1), c) {
            Some(j) => Some(1 + j),
            None => None,
        }
    }
}

/// A click action at the front: `%{A`, one button digit from 1 to 5,
/// `:`, the action text up to the first `}`, `}`.
pub open spec fn spec_action_at(s: Seq<char>) -> Option<(nat, Seq<char>, int)> {
    if s.len() >= 5 && s[0] == '%' && s[1] == '{' && s[2] == 'A' && is_digit(s[3]) && 1
        <= digit_value(s[3]) <= 5 && s[4] == ':' {
        let rest = s.skip(5);
        match find_char(rest, '}') {
            Some(j) => Some((digit_value(s[3]), rest.take(j), 5 + j + 1)),
            None => None,
        }
    } else {
        None
    }
}

/// The attribute at the front of `s`, if any: an alignment switch, a
/// foreground, background or underline color, or a click action — tried
/// in that order.
pub open spec fn spec_attr_at(s: Seq<char>) -> Option<(MAttr, int)> {
    match spec_alignment_at(s) {
        Some((al, n)) => Some((MAttr::Al(al), n)),
        None => match spec_color_attr_at(s, seq!['F']) {
            Some((c, n)) => Some((MAttr::Fg(c), n)),
            None => match spec_color_attr_at(s, seq!['B']) {
                Some((c, n)) => Some((MAttr::Bg(c), n)),
                None => match spec_color_attr_at(s, seq!['U']) {
                    Some((c, n)) => Some((MAttr::Ul(c), n)),
                    None => match spec_action_at(s) {
                        Some((b, a, n)) => Some((MAttr::Action(b, a), n)),
                        None => None,
                    },
                },
            },
        },
    }
}

// ---------------------------------------------------------------------------
// blocks
// ---------------------------------------------------------------------------

/// A parsed block of the line: its attributes and its text.
#[derive(Debug, PartialEq)]
pub struct Block {
    pub alignment: Alignment,
    pub fg: Option<Color>,
    pub bg: Option<Color>,
    pub ul: Option<Color>,
    pub actions: Vec<Option<String>>,
    pub t: String,
}

/// The grammar-level value of a parsed block.
pub struct SpecBlock {
    pub alignment: Alignment,
    pub fg: Option<Color>,
    pub bg: Option<Color>,
    pub ul: Option<Color>,
    pub actions: Seq<Option<Seq<char>>>,
    pub t: Seq<char>,
}

impl Block {
    /// The grammar-level value of this block.
    pub open spec fn view_block(&self) -> SpecBlock {
        SpecBlock {
            alignment: self.alignment,
            fg: self.fg,
            bg: self.bg,
            ul: self.ul,
            actions: Seq::new(
                self.actions@.len(),
                |i: int|
                    match self.actions@[i] {
                        Option::Some(s) => Some(s@),
                        Option::None => None,
                    },
            ),
            t: self.t@,
        }
    }

    /// A block with nothing set: left alignment, no colors, no actions,
    /// empty text.
    pub fn empty(alignment: Alignment) -> (r: Block)
        ensures
            r.view_block() == spec_empty_block(alignment),
            r.actions@.len() == 5,
    {
        let mut actions: Vec<Option<String>> = Vec::new();
        let mut i: usize = 0;
        while i < 5
            invariant
                i <= 5,
                actions@.len() == i,
                forall|j: int| 0 <= j < i ==> actions@[j] is None,
            decreases 5 - i,
        {
            actions.push(None);
            i += 1;
        }
        let r = Block { alignment, fg: None, bg: None, ul: None, actions, t: String::new() };
        proof {
            assert(r.view_block().actions =~= spec_empty_block(alignment).actions);
            assert(r.view_block().t =~= spec_empty_block(alignment).t);
            assert(r.view_block() == spec_empty_block(alignment));
        }
        r
    }
}

/// A block with nothing set.
pub open spec fn spec_empty_block(alignment: Alignment) -> SpecBlock {
    SpecBlock {
        alignment,
        fg: None,
        bg: None,
        ul: None,
        actions: Seq::new(5, |i: int| None),
        t: Seq::empty(),
    }
}

/// One attribute folded into the block being built.
pub open spec fn apply_attr(b: SpecBlock, a: MAttr) -> SpecBlock {
    match a {
        MAttr::Al(al) => SpecBlock { alignment: al, ..b },
        MAttr::Fg(c) => SpecBlock { fg: Some(c), ..b },
        MAttr::Bg(c) => SpecBlock { bg: Some(c), ..b },
        MAttr::Ul(c) => SpecBlock { ul: Some(c), ..b },
        MAttr::Action(n, act) => SpecBlock {
            actions: if 1 <= n <= 5 && b.actions.len() == 5 {
                b.actions.update(n as int - 1, Some(act))
            } else {
                b.actions
            },
            ..b
        },
    }
}

/// How many characters of text a block takes before its next attribute.
pub open spec fn text_len(s: Seq<char>) -> int
    decreases s.len(),
{
    if s.len() == 0 {
        0
    } else if spec_attr_at(s) is Some {
        0
    } else {
        1 + text_len(s.skip(1))
    }
}

/// A whole block read from the front of `s`: attributes are folded in
/// while they parse; then everything up to the next attribute (or the
/// end) is the block's text. The result pairs the block with how many
/// characters it took.
pub open spec fn spec_block_parse(s: Seq<char>, b: SpecBlock) -> (SpecBlock, int)
    decreases s.len(),
{
    match spec_attr_at(s) {
        Some((a, n)) => {
            let n1: int = if n < 1 {
                1
            } else if n > s.len() {
                s.len() as int
            } else {
                n
            };
            let r = spec_block_parse(s.skip(n1), apply_attr(b, a));
            (r.0, n1 + r.1)
        },
        None => {
            let tl: int = if s.len() == 0 {
                0
            } else {
                1 + text_len(s.skip(1))
            };
            (SpecBlock { t: s.take(tl), ..b }, tl)
        },
    }
}

// ---------------------------------------------------------------------------
// reading attributes
// ---------------------------------------------------------------------------

/// One parsed attribute.
#[derive(Debug)]
pub enum Attribute {
    Al(Alignment),
    Fg(Color),
    Bg(Color),
    Ul(Color),
    Action(u8, String),
}

impl Attribute {
    /// The grammar-level value of this attribute.
    pub open spec fn view_attr(&self) -> MAttr {
        match self {
            Attribute::Al(al) => MAttr::Al(*al),
            Attribute::Fg(c) => MAttr::Fg(*c),
            Attribute::Bg(c) => MAttr::Bg(*c),
            Attribute::Ul(c) => MAttr::Ul(*c),
            Attribute::Action(n, a) => MAttr::Action(*n as nat, a@),
        }
    }
}

/// The first `}` at or after `pos`.
fn find_close(chars: &Vec<char>, pos: usize) -> (r: Option<usize>)
    requires
        pos <= chars@.len(),
    ensures
        match r {
            Some(j) => find_char(chars@.skip(pos as int), '}') == Some(j as int) && pos + j
                < chars@.len(),
            None => find_char(chars@.skip(pos as int), '}') is None,
        },
{
    let mut k = pos;
    loop
        invariant
            pos <= k <= chars@.len(),
            find_char(chars@.skip(pos as int), '}') == match find_char(
                chars@.skip(k as int),
                '}',
            ) {
                Some(j) => Some(k - pos + j),
                None => None::<int>,
            },
        ensures
            (k == chars@.len() && find_char(chars@.skip(pos as int), '}') is None) || (k
                < chars@.len() && chars@[k as int] == '}' && find_char(
                chars@.skip(pos as int),
                '}',
            ) == Some(k - pos as int)),
        decreases chars@.len() - k,
    {
        if k == chars.len() {
            proof {
                assert(chars@.skip(k as int).len() == 0);
            }
            break ;
        }
        if chars[k] == '}' {
            proof {
                assert(chars@.skip(k as int)[0] == chars@[k as int]);
            }
            break ;
        }
        proof {
            assert(chars@.skip(k as int)[0] == chars@[k as int]);
            assert(chars@.skip(k as int).skip(1) =~= chars@.skip(k + 1));
        }
        k += 1;
    }
    if k == chars.len() {
        None
    } else {
        Some(k - pos)
    }
}

/// The alignment switch at position `pos`, if any.
fn alignment_at(chars: &Vec<char>, pos: usize) -> (r: Option<(Alignment, usize)>)
    requires
        pos <= chars@.len(),
    ensures
        r is Some <==> spec_alignment_at(chars@.skip(pos as int)) is Some,
        r matches Some(p) ==> spec_alignment_at(chars@.skip(pos as int)) == Some(
            (p.0, p.1 as int),
        ) && pos + p.1 <= chars@.len() && p.1 >= 1,
{
    let n = chars.len();
    let ghost rest = chars@.skip(pos as int);
    proof {
        assert(forall|j: int| 0 <= j < rest.len() ==> rest[j] == chars@[pos + j]);
    }
    if n - pos >= 4 && chars[pos] == '%' && chars[pos + 1] == '{' && chars[pos + 3] == '}' {
        if chars[pos + 2] == 'l' {
            return Some((Alignment::Left, 4));
        }
        if chars[pos + 2] == 'c' {
            return Some((Alignment::Middle, 4));
        }
        if chars[pos + 2] == 'r' {
            return Some((Alignment::Right, 4));
        }
    }
    None
}

/// The color attribute named by the single letter `letter` at position
/// `pos`, if any.
#[verifier::rlimit(100)]
fn color_attr_at(chars: &Vec<char>, pos: usize, letter: char) -> (r: Option<(Color, usize)>)
    requires
        pos <= chars@.len(),
    ensures
        r is Some <==> spec_color_attr_at(chars@.skip(pos as int), seq![letter]) is Some,
        r matches Some(p) ==> spec_color_attr_at(chars@.skip(pos as int), seq![letter]) == Some(
            (p.0, p.1 as int),
        ) && pos + p.1 <= chars@.len() && p.1 >= 1,
{
    let n = chars.len();
    let ghost rest = chars@.skip(pos as int);
    let ghost lseq = seq![letter];
    proof {
        assert(forall|j: int| 0 <= j < rest.len() ==> rest[j] == chars@[pos + j]);
        assert(lseq.len() == 1 && lseq[0] == letter);
    }
    if !(n - pos >= 3 && chars[pos] == '%' && chars[pos + 1] == '{' && chars[pos + 2] == letter) {
        proof {
            if rest.len() >= 2 && rest[0] == '%' && rest[1] == '{' && rest.skip(2).len()
                >= lseq.len() {
                assert(rest.skip(2).take(1)[0] == rest[2]);
                assert(rest[2] != letter);
                assert(rest.skip(2).take(1) != lseq);
            }
            assert(spec_color_attr_at(rest, lseq) is None);
        }
        return None;
    }
    proof {
        assert(rest.skip(2).take(1) =~= lseq);
    }
    let colon_here = n - pos >= 4 && chars[pos + 3] == ':';
    let vstart: usize = if colon_here {
        pos + 4
    } else {
        pos + 3
    };
    proof {
        let u = rest.skip(3);
        assert(u =~= chars@.skip(pos + 3));
        let colon: int = if u.len() >= 1 && u[0] == ':' {
            1
        } else {
            0
        };
        assert(colon == if colon_here {
            1int
        } else {
            0int
        });
        assert(u.skip(colon) =~= chars@.skip(vstart as int));
    }
    match crate::color::color_at(chars, vstart) {
        Option::Some((c, consumed)) => {
            let close_pos = vstart + consumed;
            if close_pos < n && chars[close_pos] == '}' {
                proof {
                    assert(chars@.skip(vstart as int)[consumed as int] == chars@[close_pos
                        as int]);
                    assert(spec_color_attr_at(rest, lseq) == Some((c, close_pos + 1 - pos as int)));
                }
                Some((c, close_pos + 1 - pos))
            } else {
                proof {
                    assert(spec_color_attr_at(rest, lseq) is None);
                }
                None
            }
        },
        Option::None => {
            proof {
                assert(spec_color_attr_at(rest, lseq) is None);
            }
            None
        },
    }
}

/// The click action at position `pos`, if any: its button digit, its
/// text, and how many characters it takes.
fn action_at(chars: &Vec<char>, pos: usize) -> (r: Option<(u8, String, usize)>)
    requires
        pos <= chars@.len(),
    ensures
        r is Some <==> spec_action_at(chars@.skip(pos as int)) is Some,
        r matches Some(p) ==> spec_action_at(chars@.skip(pos as int)) matches Some(q) && q.0 == p.0
            && q.1 == p.1@ && q.2 == p.2 as int && pos + p.2 <= chars@.len() && p.2 >= 1,
{
    let n = chars.len();
    let ghost rest = chars@.skip(pos as int);
    proof {
        assert(forall|j: int| 0 <= j < rest.len() ==> rest[j] == chars@[pos + j]);
    }
    if n - pos >= 5 && chars[pos] == '%' && chars[pos + 1] == '{' && chars[pos + 2] == 'A'
        && chars[pos + 4] == ':' {
        match crate::digits::char_to_digit(chars[pos + 3]) {
            Option::Some(d) if 1 <= d && d <= 5 => {
                proof {
                    assert(rest.skip(5) =~= chars@.skip(pos + 5));
                }
                match find_close(chars, pos + 5) {
                    Option::Some(j) => {
                        let action_chars = chars_between(chars, pos + 5, pos + 5 + j);
                        let action = chars_to_string(&action_chars);
                        proof {
                            assert(action_chars@ =~= rest.skip(5).take(j as int));
                        }
                        Some((d, action, 5 + j + 1))
                    },
                    Option::None => None,
                }
            },
            _ => None,
        }
    } else {
        None
    }
}

/// The attribute at position `pos`, if any.
fn attr_at(chars: &Vec<char>, pos: usize) -> (r: Option<(Attribute, usize)>)
    requires
        pos <= chars@.len(),
    ensures
        r is Some <==> spec_attr_at(chars@.skip(pos as int)) is Some,
        r matches Some(p) ==> spec_attr_at(chars@.skip(pos as int)) == Some(
            (p.0.view_attr(), p.1 as int),
        ) && pos + p.1 <= chars@.len() && p.1 >= 1,
{
    match alignment_at(chars, pos) {
        Option::Some((al, n)) => {
            return Some((Attribute::Al(al), n));
        },
        Option::None => {},
    }
    match color_attr_at(chars, pos, 'F') {
        Option::Some((c, n)) => {
            return Some((Attribute::Fg(c), n));
        },
        Option::None => {},
    }
    match color_attr_at(chars, pos, 'B') {
        Option::Some((c, n)) => {
            return Some((Attribute::Bg(c), n));
        },
        Option::None => {},
    }
    match color_attr_at(chars, pos, 'U') {
        Option::Some((c, n)) => {
            return Some((Attribute::Ul(c), n));
        },
        Option::None => {},
    }
    match action_at(chars, pos) {
        Option::Some((d, act, n)) => {
            return Some((Attribute::Action(d, act), n));
        },
        Option::None => {},
    }
    None
}

/// Where the text starting at `pos` ends: at the next attribute, or at
/// the end of the line.
fn text_scan(chars: &Vec<char>, pos: usize) -> (tl: usize)
    requires
        pos <= chars@.len(),
    ensures
        pos + tl <= chars@.len(),
        tl as int == (if chars@.skip(pos as int).len() == 0 {
            0int
        } else {
            1 + text_len(chars@.skip(pos as int).skip(1))
        }),
{
    if pos == chars.len() {
        return 0;
    }
    let mut k = pos + 1;
    proof {
        assert(chars@.skip(pos as int).skip(1) =~= chars@.skip(pos + 1));
    }
    loop
        invariant
            pos + 1 <= k <= chars@.len(),
            text_len(chars@.skip(pos + 1)) == (k - pos - 1) + text_len(chars@.skip(k as int)),
        ensures
            pos + 1 <= k <= chars@.len(),
            text_len(chars@.skip(pos + 1)) == k - pos - 1,
        decreases chars@.len() - k,
    {
        if k == chars.len() {
            proof {
                assert(chars@.skip(k as int).len() == 0);
            }
            break ;
        }
        match attr_at(chars, k) {
            Option::Some(_) => {
                proof {
                    assert(text_len(chars@.skip(k as int)) == 0);
                }
                break ;
            },
            Option::None => {
                proof {
                    assert(chars@.skip(k as int).len() > 0);
                    assert(chars@.skip(k as int).skip(1) =~= chars@.skip(k + 1));
                }
                k += 1;
            },
        }
    }
    k - pos
}

impl Block {
    /// Reads one block from the front of `s`: attributes are folded in
    /// while they parse, then everything up to the next attribute is the
    /// block's text. Always succeeds; on gibberish the text simply
    /// absorbs it.
    #[verifier::rlimit(100)]
    pub fn parse<'a>(s: &'a str, default_alignment: Alignment) -> (r: Option<(Block, &'a str)>)
        ensures
            r is Some,
            r matches Some(p) ==> {
                let q = spec_block_parse(s@, spec_empty_block(default_alignment));
                &&& p.0.view_block() == q.0
                &&& p.1@ == s@.skip(q.1)
                &&& p.0.actions@.len() == 5
            },
    {
        let chars = str_to_chars(s);
        let ghost full = spec_block_parse(s@, spec_empty_block(default_alignment));
        let mut b = Block::empty(default_alignment);
        let mut pos: usize = 0;
        proof {
            assert(s@.skip(0) =~= s@);
        }
        loop
            invariant
                pos <= chars@.len(),
                chars@ == s@,
                b.actions@.len() == 5,
                full == spec_block_parse(s@, spec_empty_block(default_alignment)),
                full == {
                    let q = spec_block_parse(s@.skip(pos as int), b.view_block());
                    (q.0, pos + q.1)
                },
            ensures
                pos <= chars@.len(),
                b.actions@.len() == 5,
                spec_attr_at(s@.skip(pos as int)) is None,
                full == {
                    let q = spec_block_parse(s@.skip(pos as int), b.view_block());
                    (q.0, pos + q.1)
                },
            decreases chars@.len() - pos,
        {
            let ghost prev = b.view_block();
            let ghost rest = s@.skip(pos as int);
            match attr_at(&chars, pos) {
                Option::Some((a, n)) => {
                    proof {
                        assert(rest.skip(n as int) =~= s@.skip(pos + n));
                    }
                    match a {
                        Attribute::Al(al) => {
                            b.alignment = al;
                        },
                        Attribute::Fg(c) => {
                            b.fg = Some(c);
                        },
                        Attribute::Bg(c) => {
                            b.bg = Some(c);
                        },
                        Attribute::Ul(c) => {
                            b.ul = Some(c);
                        },
                        Attribute::Action(num, act) => {
                            let ghost av = MAttr::Action(num as nat, act@);
                            b.actions.set((num - 1) as usize, Some(act));
                            proof {
                                assert(b.view_block().actions =~= apply_attr(prev, av).actions);
                            }
                        },
                    }
                    proof {
                        let att = (spec_attr_at(rest)->0).0;
                        assert(b.view_block().actions =~= apply_attr(prev, att).actions);
                        assert(b.view_block() == apply_attr(prev, att));
                        assert(pos + n <= chars@.len());
                    }
                    pos = pos + n;
                },
                Option::None => {
                    break ;
                },
            }
        }
        let tl = text_scan(&chars, pos);
        let ghost rest = s@.skip(pos as int);
        let text_chars = chars_between(&chars, pos, pos + tl);
        b.t = chars_to_string(&text_chars);
        proof {
            assert(rest.take(tl as int) =~= chars@.subrange(pos as int, pos + tl));
            assert(spec_block_parse(rest, b.view_block()).1 == tl);
        }
        let rest_str = s.substring_char(pos + tl, s.unicode_len());
        proof {
            assert(rest_str@ =~= s@.skip(pos + tl));
        }
        Some((b, rest_str))
    }
}

// ---------------------------------------------------------------------------
// public entry points
// ---------------------------------------------------------------------------

impl Alignment {
    /// Reads an alignment switch from the front of `s`.
    pub fn parse<'a>(s: &'a str) -> (r: Option<(Alignment, &'a str)>)
        ensures
            r is Some <==> spec_alignment_at(s@) is Some,
            r matches Some(p) ==> spec_alignment_at(s@) matches Some(q) && p.0 == q.0 && p.1@
                == s@.skip(q.1),
    {
        let chars = str_to_chars(s);
        proof {
            assert(chars@.skip(0) =~= s@);
        }
        match alignment_at(&chars, 0) {
            Option::Some((al, n)) => {
                let rest = s.substring_char(n, s.unicode_len());
                Some((al, rest))
            },
            Option::None => None,
        }
    }
}

/// Reads a color attribute named by the one-letter `attr` from the
/// front of `s`.
pub fn parse_color_attr<'a>(s: &'a str, attr: &str) -> (r: Option<(Color, &'a str)>)
    requires
        attr@.len() == 1,
    ensures
        r is Some <==> spec_color_attr_at(s@, attr@) is Some,
        r matches Some(p) ==> spec_color_attr_at(s@, attr@) matches Some(q) && p.0 == q.0 && p.1@
            == s@.skip(q.1),
{
    let chars = str_to_chars(s);
    let letter = attr.get_char(0);
    proof {
        assert(chars@.skip(0) =~= s@);
        assert(attr@ =~= seq![letter]);
    }
    match color_attr_at(&chars, 0, letter) {
        Option::Some((c, n)) => {
            let rest = s.substring_char(n, s.unicode_len());
            Some((c, rest))
        },
        Option::None => None,
    }
}

/// Reads a click action from the front of `s`: the button number, the
/// action text, and the rest.
pub fn parse_action<'a>(s: &'a str) -> (r: Option<(usize, String, &'a str)>)
    ensures
        r is Some <==> spec_action_at(s@) is Some,
        r matches Some(p) ==> spec_action_at(s@) matches Some(q) && p.0 == q.0 && p.1@ == q.1
            && p.2@ == s@.skip(q.2),
{
    let chars = str_to_chars(s);
    proof {
        assert(chars@.skip(0) =~= s@);
    }
    match action_at(&chars, 0) {
        Option::Some((d, act, n)) => {
            let rest = s.substring_char(n, s.unicode_len());
            Some((d as usize, act, rest))
        },
        Option::None => None,
    }
}

/// A markup line could not be read as a block.
#[derive(Debug, PartialEq, Eq, Structural)]
pub struct ParserError;

impl Default for ParserError {
    /// The one parse-failure value.
    fn default() -> (r: Self)
        ensures
            r == ParserError,
    {
        ParserError
    }
}

/// Reads a markup line block by block; each block's alignment carries
/// over as the default for the next.
#[derive(Debug)]
pub struct Parser {
    pub last_alignment: Alignment,
    pub rest: String,
}

impl Parser {
    /// The next block, or `None` at the end of the line.
    pub fn next(&mut self) -> (r: Option<Result<Block, ParserError>>)
        ensures
            old(self).rest@.len() == 0 <==> r is None,
            r is None ==> *final(self) == *old(self),
            r matches Some(out) ==> {
                let q = spec_block_parse(
                    old(self).rest@,
                    spec_empty_block(old(self).last_alignment),
                );
                &&& out matches Ok(b)
                &&& b.view_block() == q.0
                &&& final(self).rest@ == old(self).rest@.skip(q.1)
                &&& final(self).last_alignment == q.0.alignment
            },
    {
        if self.rest.as_str().is_empty() {
            return None;
        }
        match Block::parse(self.rest.as_str(), self.last_alignment) {
            Option::Some((block, rest)) => {
                self.rest = rest.to_owned();
                self.last_alignment = block.alignment;
                Some(Ok(block))
            },
            Option::None => Some(Err(ParserError)),
        }
    }
}

/// A reader over the blocks of `s`, starting left-aligned.
pub fn parse(s: &str) -> (r: Parser)
    ensures
        r.last_alignment == Alignment::Left,
        r.rest@ == s@,
{
    Parser { last_alignment: Alignment::Left, rest: s.to_owned() }
}

} // verus!
