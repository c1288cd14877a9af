//! The click-action codec: a block id, a monitor and a mouse button are
//! encoded as the dash-separated string handed to the renderer's click
//! handler, and decoded back from the renderer's click report.

use vstd::prelude::*;

use crate::digits::{
    all_digits, digits_val, is_digit, lemma_dec_digits, lemma_dec_roundtrip, parse_u64_digits,
    spec_dec, u64_to_dec,
};
use crate::events::{BlockId, Event, MouseButton};
use crate::model::Alignment;
use crate::text::{append_str, push_char, str_to_chars};

verus! {

/// A click action: which block was clicked, on which monitor, with which
/// button.
#[derive(Debug, Clone, Copy, PartialEq)]
pub struct Action {
    pub id: BlockId,
    pub monitor: u8,
    pub button: MouseButton,
}

impl Action {
    /// The action for a click on block (`alignment`, `index`) at `monitor`
    /// with `button`.
    pub fn new(alignment: Alignment, index: usize, monitor: u8, button: MouseButton) -> (r: Action)
        ensures
            r == (Action { id: (alignment, index), monitor, button }),
    {
        Action { id: (alignment, index), monitor, button }
    }

    /// The event a decoded click report becomes.
    pub fn to_event(self) -> (r: Event)
        ensures
            r == Event::MouseClicked(self.id, self.monitor, self.button),
    {
        Event::MouseClicked(self.id, self.monitor, self.button)
    }
}

// ---------------------------------------------------------------------------
// encoding
// ---------------------------------------------------------------------------

/// The wire form of an action:
/// `<alignment-as-int>-<index>-<monitor>-<button>`.
pub open spec fn spec_encode(a: Action) -> Seq<char> {
    spec_dec(a.id.0.spec_index()) + seq!['-'] + spec_dec(a.id.1 as nat) + seq!['-'] + spec_dec(
        a.monitor as nat,
    ) + seq!['-'] + spec_dec(a.button.spec_number())
}

impl Action {
    /// The wire form of this action.
    pub fn encode(&self) -> (r: String)
        ensures
            r@ == spec_encode(*self),
    {
        let mut s = u64_to_dec(self.id.0.to_index() as u64);
        push_char(&mut s, '-');
        let part = u64_to_dec(self.id.1 as u64);
        append_str(&mut s, part.as_str());
        push_char(&mut s, '-');
        let part = u64_to_dec(self.monitor as u64);
        append_str(&mut s, part.as_str());
        push_char(&mut s, '-');
        let part = u64_to_dec(self.button.to_number() as u64);
        append_str(&mut s, part.as_str());
        assert(s@ =~= spec_encode(*self));
        s
    }
}

// ---------------------------------------------------------------------------
// decoding
// ---------------------------------------------------------------------------

/// `s` with its trailing newlines removed.
pub open spec fn strip_trailing_newlines(s: Seq<char>) -> Seq<char>
    decreases s.len(),
{
    if s.len() > 0 && s.last() == '\n' {
        strip_trailing_newlines(s.drop_last())
    } else {
        s
    }
}

/// The dash-separated fields of `s`, in order. Splitting never yields an
/// empty list: a string without dashes is one field.
pub open spec fn split_dash(s: Seq<char>) -> Seq<Seq<char>>
    decreases s.len(),
{
    if s.len() == 0 {
        seq![Seq::<char>::empty()]
    } else if s[0] == '-' {
        seq![Seq::<char>::empty()] + split_dash(s.skip(1))
    } else {
        let rest = split_dash(s.skip(1));
        seq![seq![s[0]] + rest[0]] + rest.skip(1)
    }
}

pub proof fn lemma_split_dash_len(s: Seq<char>)
    ensures
        split_dash(s).len() >= 1,
    decreases s.len(),
{
    if s.len() > 0 {
        lemma_split_dash_len(s.skip(1));
    }
}

/// Appending a character extends the last field, or—for a dash—opens a
/// new empty field.
pub proof fn lemma_split_dash_snoc(s: Seq<char>, c: char)
    ensures
        c == '-' ==> split_dash(s.push(c)) =~~= split_dash(s).push(Seq::<char>::empty()),
        c != '-' ==> split_dash(s.push(c)) =~~= split_dash(s).update(
            split_dash(s).len() - 1,
            split_dash(s).last().push(c),
        ),
    decreases s.len(),
{
    lemma_split_dash_len(s);
    let e = Seq::<char>::empty();
    if s.len() == 0 {
        assert(s.push(c)[0] == c);
        assert(s.push(c).skip(1) =~= e);
        assert(split_dash(e) =~~= seq![e]);
        if c == '-' {
            assert(split_dash(s.push(c)) =~~= seq![e] + split_dash(e));
            assert(seq![e] + seq![e] =~~= split_dash(s).push(e));
        } else {
            assert(split_dash(s.push(c)) =~~= seq![seq![c] + split_dash(e)[0]] + split_dash(
                e,
            ).skip(1));
            assert(seq![c] + e =~= e.push(c));
            assert(split_dash(e).skip(1) =~~= Seq::<Seq<char>>::empty());
            assert(split_dash(s.push(c)) =~~= seq![e.push(c)]);
            assert(split_dash(s).update(0, split_dash(s).last().push(c)) =~~= seq![e.push(c)]);
        }
    } else {
        lemma_split_dash_snoc(s.skip(1), c);
        lemma_split_dash_len(s.skip(1));
        let tail = split_dash(s.skip(1));
        assert(s.push(c).skip(1) =~= s.skip(1).push(c));
        assert(s.push(c)[0] == s[0]);
        let rest = split_dash(s.skip(1).push(c));
        if c == '-' {
            assert(rest =~~= tail.push(e));
            if s[0] == '-' {
                assert(split_dash(s.push(c)) =~~= seq![e] + rest);
                assert(split_dash(s) =~~= seq![e] + tail);
                assert(seq![e] + tail.push(e) =~~= (seq![e] + tail).push(e));
            } else {
                assert(split_dash(s.push(c)) =~~= seq![seq![s[0]] + rest[0]] + rest.skip(1));
                assert(rest[0] == tail[0]);
                assert(rest.skip(1) =~~= tail.skip(1).push(e));
                assert(split_dash(s) =~~= seq![seq![s[0]] + tail[0]] + tail.skip(1));
                assert(seq![seq![s[0]] + tail[0]] + tail.skip(1).push(e) =~~= (seq![
                    seq![s[0]] + tail[0],
                ] + tail.skip(1)).push(e));
            }
        } else {
            let k = tail.len() - 1;
            assert(rest =~~= tail.update(k, tail.last().push(c)));
            if s[0] == '-' {
                assert(split_dash(s.push(c)) =~~= seq![e] + rest);
                assert(split_dash(s) =~~= seq![e] + tail);
                assert(seq![e] + tail.update(k, tail.last().push(c)) =~~= (seq![e] + tail).update(
                    k + 1,
                    tail.last().push(c),
                ));
                assert((seq![e] + tail).last() == tail.last());
            } else {
                assert(split_dash(s.push(c)) =~~= seq![seq![s[0]] + rest[0]] + rest.skip(1));
                assert(split_dash(s) =~~= seq![seq![s[0]] + tail[0]] + tail.skip(1));
                if k == 0 {
                    assert(rest[0] == tail[0].push(c));
                    assert(tail.skip(1) =~~= Seq::<Seq<char>>::empty());
                    assert(rest.skip(1) =~~= Seq::<Seq<char>>::empty());
                    assert(split_dash(s.push(c)) =~~= seq![seq![s[0]] + tail[0].push(c)]);
                    assert(seq![s[0]] + tail[0].push(c) =~= (seq![s[0]] + tail[0]).push(c));
                    assert(split_dash(s).update(
                        split_dash(s).len() - 1,
                        split_dash(s).last().push(c),
                    ) =~~= seq![(seq![s[0]] + tail[0]).push(c)]);
                } else {
                    assert(rest[0] == tail[0]);
                    assert(rest.skip(1) =~~= tail.skip(1).update(k - 1, tail.last().push(c)));
                    assert(split_dash(s).last() == tail.last());
                    assert(split_dash(s.push(c)) =~~= split_dash(s).update(
                        split_dash(s).len() - 1,
                        split_dash(s).last().push(c),
                    ));
                }
            }
        }
    }
}

/// A dash-free field followed by a dash splits off cleanly.
pub proof fn lemma_split_dash_concat(a: Seq<char>, rest: Seq<char>)
    requires
        forall|i: int| 0 <= i < a.len() ==> a[i] != '-',
    ensures
        split_dash(a + seq!['-'] + rest) =~~= seq![a] + split_dash(rest),
        split_dash(a) =~~= seq![a],
    decreases a.len(),
{
    if a.len() == 0 {
        assert(a + seq!['-'] + rest =~= seq!['-'] + rest);
        assert((seq!['-'] + rest).skip(1) =~= rest);
    } else {
        lemma_split_dash_concat(a.skip(1), rest);
        let s = a + seq!['-'] + rest;
        assert(s[0] == a[0]);
        assert(s.skip(1) =~= a.skip(1) + seq!['-'] + rest);
        assert(a.skip(1) =~= a.skip(1));
        assert(a[0] != '-');
        assert(split_dash(s) =~~= seq![a] + split_dash(rest));
        assert(split_dash(a) =~~= seq![a]) by {
            assert(a.skip(1).len() == a.len() - 1);
            assert(seq![a[0]] + a.skip(1) =~= a);
        }
    }
}

/// The meaning of one field: one or more decimal digits, read as a
/// number, bounded by `max`.
pub open spec fn field_val(f: Seq<char>, max: nat) -> Option<nat> {
    if f.len() > 0 && all_digits(f) && digits_val(f) <= max {
        Some(digits_val(f))
    } else {
        None
    }
}

/// What decoding a click report yields: the first four dash-separated
/// fields of the line (after trailing newlines are dropped) must be an
/// alignment index below 3, a block index, a monitor, and a button number
/// from 1 to 5; anything after a fourth dash is ignored.
pub open spec fn spec_decode(s: Seq<char>) -> Option<Action> {
    let fields = split_dash(strip_trailing_newlines(s));
    if fields.len() < 4 {
        None
    } else {
        let al = field_val(fields[0], 2);
        let index = field_val(fields[1], usize::MAX as nat);
        let monitor = field_val(fields[2], u8::MAX as nat);
        let button = field_val(fields[3], 5);
        if al is Some && index is Some && monitor is Some && button is Some && button->0 >= 1 {
            Some(
                Action {
                    id: (
                        if al->0 == 0 {
                            Alignment::Left
                        } else if al->0 == 1 {
                            Alignment::Middle
                        } else {
                            Alignment::Right
                        },
                        index->0 as usize,
                    ),
                    monitor: monitor->0 as u8,
                    button: if button->0 == 1 {
                        MouseButton::Left
                    } else if button->0 == 2 {
                        MouseButton::Middle
                    } else if button->0 == 3 {
                        MouseButton::Right
                    } else if button->0 == 4 {
                        MouseButton::ScrollUp
                    } else {
                        MouseButton::ScrollDown
                    },
                },
            )
        } else {
            None
        }
    }
}

/// The dash-separated fields of `chars`.
fn split_on_dash(chars: &Vec<char>) -> (r: Vec<Vec<char>>)
    ensures
        r.deep_view() == split_dash(chars@),
        r@.len() >= 1,
{
    let mut fields: Vec<Vec<char>> = Vec::new();
    let mut current: Vec<char> = Vec::new();
    let mut i: usize = 0;
    proof {
        assert(split_dash(chars@.take(0)) =~~= seq![Seq::<char>::empty()]);
    }
    while i < chars.len()
        invariant
            i <= chars@.len(),
            split_dash(chars@.take(i as int)) =~~= fields.deep_view().push(current@),
        decreases chars@.len() - i,
    {
        let ghost prefix = chars@.take(i as int);
        let c = chars[i];
        proof {
            assert(chars@.take(i + 1) =~= prefix.push(chars@[i as int]));
            lemma_split_dash_snoc(prefix, chars@[i as int]);
        }
        if c == '-' {
            fields.push(current);
            current = Vec::new();
            proof {
                assert(split_dash(chars@.take(i + 1)) =~~= fields.deep_view().push(current@));
            }
        } else {
            current.push(c);
            proof {
                assert(split_dash(chars@.take(i + 1)) =~~= fields.deep_view().push(current@));
            }
        }
        i += 1;
    }
    proof {
        assert(chars@.take(chars@.len() as int) =~= chars@);
    }
    let ghost fields_before = fields.deep_view();
    let ghost last_field = current@;
    fields.push(current);
    proof {
        assert(fields.deep_view() =~~= fields_before.push(last_field));
    }
    fields
}

impl Action {
    /// Reads a click-report line back into an action; `None` on any line
    /// that is not a well-formed action string. The caller treats such a
    /// line as a literal command instead.
    pub fn decode(s: &str) -> (r: Option<Action>)
        ensures
            r == spec_decode(s@),
    {
        let mut chars = str_to_chars(s);
        loop
            invariant
                strip_trailing_newlines(chars@) == strip_trailing_newlines(s@),
            ensures
                chars@ == strip_trailing_newlines(s@),
            decreases chars@.len(),
        {
            if chars.len() == 0 {
                break ;
            }
            let last = chars[chars.len() - 1];
            if last != '\n' {
                break ;
            }
            let ghost before = chars@;
            chars.pop();
            proof {
                assert(before.drop_last() =~= chars@);
            }
        }
        let fields = split_on_dash(&chars);
        if fields.len() < 4 {
            return None;
        }
        proof {
            assert(fields.deep_view()[0] == fields[0]@);
            assert(fields.deep_view()[1] == fields[1]@);
            assert(fields.deep_view()[2] == fields[2]@);
            assert(fields.deep_view()[3] == fields[3]@);
        }
        let al = match parse_u64_digits(fields[0].as_slice()) {
            Option::Some(v) if v <= 2 => v as u8,
            _ => {
                return None;
            },
        };
        let index = match parse_u64_digits(fields[1].as_slice()) {
            Option::Some(v) if v <= usize::MAX as u64 => v as usize,
            _ => {
                return None;
            },
        };
        let monitor = match parse_u64_digits(fields[2].as_slice()) {
            Option::Some(v) if v <= u8::MAX as u64 => v as u8,
            _ => {
                return None;
            },
        };
        let button = match parse_u64_digits(fields[3].as_slice()) {
            Option::Some(v) if 1 <= v && v <= 5 => v as u8,
            _ => {
                return None;
            },
        };
        Some(
            Action {
                id: (Alignment::from_index(al), index),
                monitor,
                button: MouseButton::from_number(button),
            },
        )
    }
}

// ---------------------------------------------------------------------------
// the round trip
// ---------------------------------------------------------------------------

/// Encoding an action and decoding the result returns the same action:
/// for every block id, monitor and button, the click wire format is read
/// back exactly as it was written.
pub proof fn lemma_action_roundtrip(a: Action)
    ensures
        spec_decode(spec_encode(a)) == Some(a),
{
    let d0 = spec_dec(a.id.0.spec_index());
    let d1 = spec_dec(a.id.1 as nat);
    let d2 = spec_dec(a.monitor as nat);
    let d3 = spec_dec(a.button.spec_number());
    lemma_dec_digits(a.id.0.spec_index());
    lemma_dec_digits(a.id.1 as nat);
    lemma_dec_digits(a.monitor as nat);
    lemma_dec_digits(a.button.spec_number());
    lemma_dec_roundtrip(a.id.0.spec_index());
    lemma_dec_roundtrip(a.id.1 as nat);
    lemma_dec_roundtrip(a.monitor as nat);
    lemma_dec_roundtrip(a.button.spec_number());
    let s = spec_encode(a);
    assert(s.last() == d3.last());
    assert(is_digit(d3.last()));
    assert(s.last() != '\n');
    assert(strip_trailing_newlines(s) == s);
    assert(forall|i: int| 0 <= i < d0.len() ==> d0[i] != '-') by {
        assert(forall|i: int| 0 <= i < d0.len() ==> is_digit(#[trigger] d0[i]));
    }
    assert(forall|i: int| 0 <= i < d1.len() ==> d1[i] != '-') by {
        assert(forall|i: int| 0 <= i < d1.len() ==> is_digit(#[trigger] d1[i]));
    }
    assert(forall|i: int| 0 <= i < d2.len() ==> d2[i] != '-') by {
        assert(forall|i: int| 0 <= i < d2.len() ==> is_digit(#[trigger] d2[i]));
    }
    assert(forall|i: int| 0 <= i < d3.len() ==> d3[i] != '-') by {
        assert(forall|i: int| 0 <= i < d3.len() ==> is_digit(#[trigger] d3[i]));
    }
    lemma_split_dash_concat(d3, Seq::<char>::empty());
    lemma_split_dash_concat(d2, d3);
    lemma_split_dash_concat(d1, d2 + seq!['-'] + d3);
    lemma_split_dash_concat(d0, d1 + seq!['-'] + (d2 + seq!['-'] + d3));
    assert(s =~= d0 + seq!['-'] + (d1 + seq!['-'] + (d2 + seq!['-'] + d3)));
    let fields = split_dash(s);
    assert(split_dash(d2 + seq!['-'] + d3) =~~= seq![d2] + seq![d3]);
    assert(split_dash(d1 + seq!['-'] + (d2 + seq!['-'] + d3)) =~~= seq![d1] + (seq![d2] + seq![
        d3,
    ]));
    assert(fields =~~= seq![d0] + (seq![d1] + (seq![d2] + seq![d3])));
    assert(fields.len() == 4);
    assert(fields[0] == d0 && fields[1] == d1 && fields[2] == d2 && fields[3] == d3);
    assert(a.id.1 as nat <= usize::MAX as nat);
    assert(field_val(d0, 2) == Some(a.id.0.spec_index()));
    assert(field_val(d1, usize::MAX as nat) == Some(a.id.1 as nat));
    assert(field_val(d2, u8::MAX as nat) == Some(a.monitor as nat));
    assert(field_val(d3, 5) == Some(a.button.spec_number()));
    assert(spec_decode(s) == Some(a));
}

} // verus!
