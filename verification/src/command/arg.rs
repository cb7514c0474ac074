use vstd::prelude::*;
use vstd::string::StringSliceAdditionalSpecFns;
use vstd::utf8::{valid_utf8, is_char_boundary, encode_utf8, is_continuation_byte};

verus! {

/// Where scanning an argument that starts at `i` stops: at the first space outside quotes, or at
/// the end. A quote (`'` or `"`) opens a quoted run that the same quote closes; inside quotes a
/// backslash makes the next quote ordinary.
pub open spec fn scan_end(bytes: Seq<u8>, i: int, in_quotes: bool, quote: u8, ignore_quote: bool) -> int
    decreases bytes.len() - i,
{
    if i < 0 || i >= bytes.len() || (!in_quotes && bytes[i] == 0x20) {
        i
    } else {
        let b = bytes[i];
        let is_quote = (b == 0x27 || b == 0x22) && !ignore_quote;
        let in_q = if is_quote {
            if in_quotes {
                !(b == quote)
            } else {
                true
            }
        } else {
            in_quotes
        };
        let q = if is_quote && !in_quotes {
            b
        } else {
            quote
        };
        scan_end(bytes, i + 1, in_q, q, in_q && b == 0x5C)
    }
}

/// Scanning from a quoted position, with neither the quote nor a backslash before `j`, gets
/// past `j`: inside quotes nothing but the matching quote leaves them.
proof fn lemma_scan_inside_quotes(bytes: Seq<u8>, k: int, j: int, q: u8)
    requires
        0 <= k <= j < bytes.len(),
        bytes[j] == q,
        q == 0x22 || q == 0x27,
        forall|m: int| k <= m < j ==> bytes[m] != q && bytes[m] != 0x5C,
    ensures
        scan_end(bytes, k, true, q, false) > j,
    decreases j - k,
{
    if k < j {
        lemma_scan_inside_quotes(bytes, k + 1, j, q);
    } else {
        lemma_scan_at_least(bytes, j + 1, false, q, false);
    }
}

/// Scanning never stops before where it starts.
proof fn lemma_scan_at_least(bytes: Seq<u8>, i: int, in_quotes: bool, quote: u8, ignore_quote: bool)
    requires
        0 <= i,
    ensures
        scan_end(bytes, i, in_quotes, quote, ignore_quote) >= i,
    decreases bytes.len() - i,
{
    if i < bytes.len() && !(!in_quotes && bytes[i] == 0x20) {
        let b = bytes[i];
        let is_quote = (b == 0x27 || b == 0x22) && !ignore_quote;
        let in_q = if is_quote {
            if in_quotes {
                !(b == quote)
            } else {
                true
            }
        } else {
            in_quotes
        };
        let q = if is_quote && !in_quotes {
            b
        } else {
            quote
        };
        lemma_scan_at_least(bytes, i + 1, in_q, q, in_q && b == 0x5C);
    }
}

/// A quoted run is never split: when an argument starts at `a` with a word of no spaces,
/// quotes or backslashes up to an opening quote at `i`, and the same quote closes the run at
/// `j` with no backslash between, the argument runs past `j`, whatever spaces or other quotes
/// lie between the two.
pub proof fn law_quotes_keep_runs_whole(bytes: Seq<u8>, a: int, i: int, j: int)
    requires
        0 <= a <= i < j < bytes.len(),
        bytes[i] == 0x22 || bytes[i] == 0x27,
        bytes[j] == bytes[i],
        forall|m: int|
            a <= m < i ==> bytes[m] != 0x20 && bytes[m] != 0x22 && bytes[m] != 0x27 && bytes[m] != 0x5C,
        forall|m: int| i < m < j ==> bytes[m] != bytes[i] && bytes[m] != 0x5C,
    ensures
        scan_end(bytes, a, false, 0, false) > j,
    decreases i - a,
{
    if a < i {
        assert(scan_end(bytes, a, false, 0, false) == scan_end(bytes, a + 1, false, 0, false));
        law_quotes_keep_runs_whole(bytes, a + 1, i, j);
    } else {
        let q = bytes[i];
        assert(scan_end(bytes, i, false, 0, false) == scan_end(bytes, i + 1, true, q, false));
        lemma_scan_inside_quotes(bytes, i + 1, j, q);
    }
}

/// An ASCII byte is followed by a character boundary.
proof fn lemma_boundary_after_ascii(bytes: Seq<u8>, i: int)
    requires
        valid_utf8(bytes),
        0 <= i < bytes.len(),
        bytes[i] < 128,
    ensures
        is_char_boundary(bytes, i + 1),
{
    vstd::utf8::is_char_boundary_start_end_of_seq(bytes);
    if i + 1 < bytes.len() {
        vstd::utf8::is_char_boundary_iff_is_leading_byte(bytes, i);
        vstd::utf8::valid_utf8_split(bytes, i);
        let t = bytes.subrange(i, bytes.len() as int);
        assert(t[0] == bytes[i]);
        assert(valid_utf8(vstd::utf8::pop_first_scalar(t)));
        let u = vstd::utf8::pop_first_scalar(t);
        assert(u.len() > 0);
        assert(u[0] == bytes[i + 1]);
        assert(vstd::utf8::valid_first_scalar(u));
        vstd::utf8::is_char_boundary_iff_not_is_continuation_byte(bytes, i + 1);
    }
}

/// A boundary of a string is a boundary of its part that starts at an earlier boundary.
proof fn lemma_boundary_in_tail(bytes: Seq<u8>, a: int, e: int)
    requires
        valid_utf8(bytes),
        0 <= a <= e <= bytes.len(),
        is_char_boundary(bytes, a),
        is_char_boundary(bytes, e),
    ensures
        valid_utf8(bytes.subrange(a, bytes.len() as int)),
        is_char_boundary(bytes.subrange(a, bytes.len() as int), e - a),
{
    vstd::utf8::valid_utf8_split(bytes, a);
    let t = bytes.subrange(a, bytes.len() as int);
    vstd::utf8::is_char_boundary_start_end_of_seq(t);
    if e < bytes.len() {
        vstd::utf8::is_char_boundary_iff_not_is_continuation_byte(bytes, e);
        vstd::utf8::is_char_boundary_iff_not_is_continuation_byte(t, e - a);
        assert(t[e - a] == bytes[e]);
    } else {
        assert(e - a == t.len());
    }
}

/// The part of `s` between the byte positions `from` and `to`, both character boundaries.
fn slice<'a>(s: &'a str, from: usize, to: usize) -> (r: &'a str)
    requires
        from <= to <= s.spec_bytes().len(),
        is_char_boundary(s.spec_bytes(), from as int),
        is_char_boundary(s.spec_bytes(), to as int),
    ensures
        r.spec_bytes() == s.spec_bytes().subrange(from as int, to as int),
{
    proof {
        vstd::utf8::encode_utf8_valid_utf8(s@);
        lemma_boundary_in_tail(s.spec_bytes(), from as int, to as int);
    }
    let (_, tail) = s.split_at(from);
    let (mid, _) = tail.split_at(to - from);
    assert(mid.spec_bytes() =~= s.spec_bytes().subrange(from as int, to as int));
    mid
}

/// Walks through the space-separated arguments of a command, keeping quoted runs together.
pub struct ArgumentTraverser<'cmd> {
    command: &'cmd str,
    anchor: usize,
    index: usize,
}

impl<'cmd> ArgumentTraverser<'cmd> {
    /// The bytes of the command.
    pub closed spec fn bytes(&self) -> Seq<u8> {
        self.command.spec_bytes()
    }

    /// Where the current argument starts.
    pub closed spec fn spec_anchor(&self) -> int {
        self.anchor as int
    }

    /// Where the next argument starts.
    pub closed spec fn spec_index(&self) -> int {
        self.index as int
    }

    /// Both positions are character boundaries whenever they lie within the command.
    pub closed spec fn wf(&self) -> bool {
        &&& self.index <= self.command.spec_bytes().len() ==> is_char_boundary(
            self.command.spec_bytes(),
            self.index as int,
        )
        &&& self.anchor <= self.command.spec_bytes().len() ==> is_char_boundary(
            self.command.spec_bytes(),
            self.anchor as int,
        )
    }

    /// A traverser at the start of `command`.
    pub fn new(command: &'cmd str) -> (r: Self)
        ensures
            r.wf(),
            r.bytes() == command.spec_bytes(),
            r.spec_anchor() == 0,
            r.spec_index() == 0,
    {
        proof {
            vstd::utf8::encode_utf8_valid_utf8(command@);
            vstd::utf8::is_char_boundary_start_end_of_seq(command.spec_bytes());
        }
        ArgumentTraverser { command, anchor: 0, index: 0 }
    }

    /// Where the current argument starts, in bytes.
    pub fn anchor(&self) -> (a: usize)
        ensures
            a == self.spec_anchor(),
    {
        self.anchor
    }

    /// Whether another argument follows.
    pub fn has_next(&self) -> (b: bool)
        ensures
            b == (self.spec_index() < self.bytes().len()),
    {
        self.index < self.command.as_bytes().len()
    }

    /// The rest of the command from the start of the current argument, cut to `truncate_to`
    /// bytes.
    pub fn remaining_string(&self, truncate_to: usize) -> (r: &'cmd str)
        requires
            self.wf(),
            self.spec_anchor() <= self.bytes().len(),
            self.bytes().len() - self.spec_anchor() > truncate_to ==> is_char_boundary(
                self.bytes(),
                self.spec_anchor() + truncate_to,
            ),
        ensures
            self.bytes().len() - self.spec_anchor() > truncate_to ==> r.spec_bytes()
                == self.bytes().subrange(self.spec_anchor(), self.spec_anchor() + truncate_to),
            self.bytes().len() - self.spec_anchor() <= truncate_to ==> r.spec_bytes()
                == self.bytes().subrange(self.spec_anchor(), self.bytes().len() as int),
    {
        let len = self.command.as_bytes().len();
        proof {
            vstd::utf8::encode_utf8_valid_utf8(self.command@);
            vstd::utf8::is_char_boundary_start_end_of_seq(self.command.spec_bytes());
        }
        if len - self.anchor > truncate_to {
            slice(self.command, self.anchor, self.anchor + truncate_to)
        } else {
            slice(self.command, self.anchor, len)
        }
    }

    /// The next argument, or `None` at the end of the command. The argument runs from where
    /// the last one ended (past its space) to the next space outside quotes.
    pub fn next(&mut self) -> (r: Option<&'cmd str>)
        requires
            old(self).wf(),
            old(self).bytes().len() < usize::MAX,
        ensures
            final(self).wf(),
            final(self).bytes() == old(self).bytes(),
            final(self).spec_anchor() == old(self).spec_index(),
            old(self).spec_index() >= old(self).bytes().len() ==> r is None
                && final(self).spec_index() == old(self).spec_index(),
            old(self).spec_index() < old(self).bytes().len() ==> {
                let end = scan_end(old(self).bytes(), old(self).spec_index(), false, 0, false);
                &&& r matches Some(arg) && arg.spec_bytes() == old(self).bytes().subrange(
                    old(self).spec_index(),
                    end,
                )
                &&& final(self).spec_index() == end + 1
            },
    {
        self.anchor = self.index;
        let len = self.command.as_bytes().len();
        if self.anchor >= len {
            return None;
        }
        let bytes = self.command.as_bytes();
        let ghost s = bytes@;
        proof {
            vstd::utf8::encode_utf8_valid_utf8(self.command@);
        }
        let mut quote_type: u8 = 0;
        let mut in_quotes = false;
        let mut ignore_quote = false;
        let mut index = self.index;
        while index < len && (in_quotes || bytes[index] != 0x20u8)
            invariant
                s == bytes@,
                s == self.command.spec_bytes(),
                len == s.len(),
                valid_utf8(s),
                self.anchor <= index <= len,
                scan_end(s, index as int, in_quotes, quote_type, ignore_quote) == scan_end(
                    s,
                    self.anchor as int,
                    false,
                    0,
                    false,
                ),
            decreases len - index,
        {
            let b = bytes[index];
            if (b == 0x27u8 || b == 0x22u8) && !ignore_quote {
                if in_quotes {
                    if b == quote_type {
                        in_quotes = false;
                    }
                } else {
                    quote_type = b;
                    in_quotes = true;
                }
            }
            if ignore_quote {
                ignore_quote = false;
            }
            if in_quotes && b == 0x5Cu8 {
                ignore_quote = true;
            }
            index += 1;
        }
        proof {
            vstd::utf8::is_char_boundary_start_end_of_seq(s);
            if index < len {
                vstd::utf8::is_char_boundary_iff_is_leading_byte(s, index as int);
                lemma_boundary_after_ascii(s, index as int);
            }
        }
        let result = slice(self.command, self.anchor, index);
        self.index = index + 1;
        Some(result)
    }
}

} // verus!
