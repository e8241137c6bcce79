//! The order counters of the operator interface: a count with its editable
//! text, kept in step.
//!
//! A [`CounterState`] holds the count a counter widget shows and the text of
//! its edit box. The buttons step the count, saturating at the type's
//! bounds; committing the text adopts it when it is a well-formed number and
//! otherwise keeps the old count; either way the text is rewritten to the
//! count's canonical decimal numeral. The rendering lives outside this
//! crate; these transitions are what it calls.

use vstd::prelude::*;
use vstd::string::StringExecFns;
use crate::notes::all_digits;
use crate::notes::digit_val;
use crate::notes::digits_val;
use crate::notes::is_digit;

verus! {

/// The decimal digit character of a value below ten.
pub open spec fn digit_char(d: int) -> char {
    if d == 0 {
        '0'
    } else if d == 1 {
        '1'
    } else if d == 2 {
        '2'
    } else if d == 3 {
        '3'
    } else if d == 4 {
        '4'
    } else if d == 5 {
        '5'
    } else if d == 6 {
        '6'
    } else if d == 7 {
        '7'
    } else if d == 8 {
        '8'
    } else {
        '9'
    }
}

/// The decimal numeral of a number, most significant digit first, without
/// leading zeroes (zero itself written `0`).
pub open spec fn dec_chars(n: int) -> Seq<char>
    recommends
        n >= 0,
    decreases n,
{
    if n < 10 {
        seq![digit_char(n)]
    } else {
        dec_chars(n / 10) + seq![digit_char(n % 10)]
    }
}

/// Printing a number and reading it back yields the number: the canonical
/// numeral is one or more digits, and its value is the number itself. So a
/// committed edit box never drifts: rewriting the text to the count's
/// numeral and committing it again keeps the count.
pub proof fn lemma_decimal_round_trip(n: int)
    requires
        n >= 0,
    ensures
        dec_chars(n).len() >= 1,
        all_digits(dec_chars(n)),
        digits_val(dec_chars(n)) == n,
    decreases n,
{
    if n < 10 {
        assert(is_digit(digit_char(n)));
        assert(digit_val(digit_char(n)) == n);
        assert(dec_chars(n).drop_last() =~= Seq::<char>::empty());
        assert(digits_val(Seq::<char>::empty()) == 0);
    } else {
        lemma_decimal_round_trip(n / 10);
        let s = dec_chars(n);
        assert(s.drop_last() =~= dec_chars(n / 10));
        assert(s.last() == digit_char(n % 10));
        assert(is_digit(digit_char(n % 10)));
        assert(digit_val(digit_char(n % 10)) == n % 10);
        assert forall|i: int| 0 <= i < s.len() implies is_digit(#[trigger] s[i]) by {
            if i < s.len() - 1 {
                assert(s[i] == dec_chars(n / 10)[i]);
            } else {
                assert(s[i] == digit_char(n % 10));
            }
        }
        assert(digits_val(s) == digits_val(dec_chars(n / 10)) * 10 + digit_val(digit_char(n % 10)));
    }
}

/// Appends one digit's character to a string.
fn push_digit(s: &mut String, d: u64)
    requires
        d < 10,
    ensures
        final(s)@ == old(s)@ + seq![digit_char(d as int)],
{
    proof {
        reveal_strlit("0");
        reveal_strlit("1");
        reveal_strlit("2");
        reveal_strlit("3");
        reveal_strlit("4");
        reveal_strlit("5");
        reveal_strlit("6");
        reveal_strlit("7");
        reveal_strlit("8");
        reveal_strlit("9");
    }
    if d == 0 {
        proof {
            assert("0"@ =~= seq![digit_char(0)]);
        }
        s.append("0");
    } else if d == 1 {
        proof {
            assert("1"@ =~= seq![digit_char(1)]);
        }
        s.append("1");
    } else if d == 2 {
        proof {
            assert("2"@ =~= seq![digit_char(2)]);
        }
        s.append("2");
    } else if d == 3 {
        proof {
            assert("3"@ =~= seq![digit_char(3)]);
        }
        s.append("3");
    } else if d == 4 {
        proof {
            assert("4"@ =~= seq![digit_char(4)]);
        }
        s.append("4");
    } else if d == 5 {
        proof {
            assert("5"@ =~= seq![digit_char(5)]);
        }
        s.append("5");
    } else if d == 6 {
        proof {
            assert("6"@ =~= seq![digit_char(6)]);
        }
        s.append("6");
    } else if d == 7 {
        proof {
            assert("7"@ =~= seq![digit_char(7)]);
        }
        s.append("7");
    } else if d == 8 {
        proof {
            assert("8"@ =~= seq![digit_char(8)]);
        }
        s.append("8");
    } else {
        proof {
            assert("9"@ =~= seq![digit_char(9)]);
        }
        s.append("9");
    }
}

/// Appends the decimal numeral of `n`.
fn append_decimal(n: u64, s: &mut String)
    ensures
        final(s)@ == old(s)@ + dec_chars(n as int),
    decreases n,
{
    if n >= 10 {
        append_decimal(n / 10, s);
        push_digit(s, n % 10);
        proof {
            assert(s@ =~= old(s)@ + (dec_chars(n as int / 10) + seq![digit_char(n as int % 10)]));
        }
    } else {
        push_digit(s, n);
    }
}

/// The decimal numeral of a number as a string: exactly [`dec_chars`].
pub fn decimal_string(n: u64) -> (s: String)
    ensures
        s@ == dec_chars(n as int),
{
    let mut s = String::new();
    append_decimal(n, &mut s);
    proof {
        assert(Seq::<char>::empty() + dec_chars(n as int) =~= dec_chars(n as int));
    }
    s
}

/// Reads a number in decimal: the value when the text is one or more digits
/// and nothing else, and the value fits; nothing otherwise.
#[verifier::loop_isolation(false)]
pub fn parse_u64(text: &str) -> (r: Option<u64>)
    ensures
        r == (if text@.len() >= 1 && all_digits(text@) && digits_val(text@) <= u64::MAX {
            Some(digits_val(text@) as u64)
        } else {
            Option::<u64>::None
        }),
{
    let n = text.unicode_len();
    if n == 0 {
        return None;
    }
    let mut value: u64 = 0;
    let mut big = false;
    let mut i: usize = 0;
    while i < n
        invariant
            i <= n,
            all_digits(text@.subrange(0, i as int)),
            !big ==> value == digits_val(text@.subrange(0, i as int)),
            big ==> digits_val(text@.subrange(0, i as int)) > u64::MAX,
        decreases n - i,
    {
        let c = text.get_char(i);
        let d = c as u32;
        if d < 48 || d > 57 {
            proof {
                assert(!is_digit(text@[i as int]));
            }
            return None;
        }
        let ghost pre = text@.subrange(0, i as int);
        proof {
            assert(is_digit(text@[i as int]));
            assert(text@.subrange(0, i as int + 1).drop_last() =~= pre);
            assert(text@.subrange(0, i as int + 1).last() == text@[i as int]);
            assert(digits_val(text@.subrange(0, i as int + 1)) == digits_val(pre) * 10 + digit_val(
                text@[i as int],
            ));
        }
        let dv: u64 = (d - 48) as u64;
        if big || value > u64::MAX / 10 || value * 10 > u64::MAX - dv {
            proof {
                if !big {
                    assert(digits_val(pre) == value);
                    assert(digits_val(pre) * 10 + digit_val(text@[i as int]) > u64::MAX);
                } else {
                    assert(digits_val(pre) > u64::MAX);
                    assert(digits_val(pre) * 10 + digit_val(text@[i as int]) > u64::MAX);
                }
            }
            big = true;
        } else {
            value = value * 10 + dv;
        }
        i = i + 1;
    }
    proof {
        assert(text@.subrange(0, n as int) =~= text@);
    }
    if big {
        None
    } else {
        Some(value)
    }
}

/// State of one counter widget: the count and the text of its edit box.
pub struct CounterState {
    text: String,
    count: u64,
}

impl CounterState {
    /// The count the counter holds.
    pub closed spec fn spec_count(&self) -> u64 {
        self.count
    }

    /// The characters in the edit box.
    pub closed spec fn spec_text(&self) -> Seq<char> {
        self.text@
    }

    /// Returns the current count stored by the counter.
    pub fn count(&self) -> (r: u64)
        ensures
            r == self.spec_count(),
    {
        self.count
    }

    /// Changes the count on the counter and rewrites the text to its
    /// decimal numeral.
    pub fn set_count(&mut self, count: u64)
        ensures
            final(self).spec_count() == count,
            final(self).spec_text() == dec_chars(count as int),
    {
        self.count = count;
        self.text = decimal_string(count);
    }

    /// One step up, held at the type's ceiling; the text follows the count.
    pub fn increment(&mut self)
        ensures
            final(self).spec_count() == (if old(self).spec_count() == u64::MAX {
                u64::MAX
            } else {
                (old(self).spec_count() + 1) as u64
            }),
            final(self).spec_text() == dec_chars(final(self).spec_count() as int),
    {
        if self.count != u64::MAX {
            self.count = self.count + 1;
        }
        self.text = decimal_string(self.count);
    }

    /// One step down, held at zero; the text follows the count.
    pub fn decrement(&mut self)
        ensures
            final(self).spec_count() == (if old(self).spec_count() == 0 {
                0u64
            } else {
                (old(self).spec_count() - 1) as u64
            }),
            final(self).spec_text() == dec_chars(final(self).spec_count() as int),
    {
        if self.count != 0 {
            self.count = self.count - 1;
        }
        self.text = decimal_string(self.count);
    }

    /// The text of the edit box, for rendering.
    pub fn text(&self) -> (r: &String)
        ensures
            r@ == self.spec_text(),
    {
        &self.text
    }

    /// Adopts the text as edited in the box, leaving the count alone.
    pub fn set_text(&mut self, text: String)
        ensures
            final(self).spec_text() == text@,
            final(self).spec_count() == old(self).spec_count(),
    {
        self.text = text;
    }

    /// Commits an edited text: the count becomes its value when it reads as
    /// a number, and stays otherwise; the text is rewritten to the count's
    /// numeral either way.
    pub fn commit_text(&mut self)
        ensures
            final(self).spec_count() == (if old(self).spec_text().len() >= 1 && all_digits(
                old(self).spec_text(),
            ) && digits_val(old(self).spec_text()) <= u64::MAX {
                digits_val(old(self).spec_text()) as u64
            } else {
                old(self).spec_count()
            }),
            final(self).spec_text() == dec_chars(final(self).spec_count() as int),
    {
        match parse_u64(self.text.as_str()) {
            Some(value) => {
                self.count = value;
            },
            None => {},
        }
        self.text = decimal_string(self.count);
    }
}

impl Default for CounterState {
    /// A fresh counter: zero, with its numeral in the box.
    fn default() -> (r: Self)
        ensures
            r.spec_count() == 0,
            r.spec_text() == dec_chars(0),
    {
        CounterState { text: decimal_string(0), count: 0 }
    }
}

/// A counter widget under construction: the state it edits and an optional
/// header line. The rendering lives outside this crate and consumes these
/// fields.
pub struct Counter<'a, 'b> {
    pub state: &'a mut CounterState,
    pub header: Option<&'b str>,
}

impl<'a, 'b> Counter<'a, 'b> {
    pub fn new(state: &'a mut CounterState) -> (c: Self)
        ensures
            c.header is None,
    {
        Counter { state, header: None }
    }

    pub fn with_header(self, header: &'b str) -> (c: Self)
        ensures
            c.header == Some(header),
    {
        Counter { header: Some(header), ..self }
    }
}

} // verus!
