use vstd::prelude::*;
use vstd::string::{StrSliceExecFns, StringExecFns, StringSliceAdditionalSpecFns};
use vstd::utf8::encode_utf8;
use crate::nbt::tag::{NbtTag, NbtList, NbtCompound, NbtView, tag_view, list_view, compound_view, compound_set};

verus! {

/// Whether `c` is a decimal digit in the sense of the Unicode category Nd, as the regular
/// expression class `\d` matches it.
pub uninterp spec fn unicode_digit(c: char) -> bool;

/// `regex::Regex::is_match` of the class `\d` on the single character `c`. The regex crate's
/// `\d` is Unicode-aware (the category Nd), whose only ASCII members are `0` to `9`; beyond
/// that nothing is claimed.
#[verifier::external_body]
fn is_unicode_digit(c: char) -> (b: bool)
    ensures
        b == unicode_digit(c),
        (c as u32) < 128 ==> (b <==> ('0' <= c && c <= '9')),
{
    let mut buf = [0u8; 4];
    regex::Regex::new(r"^\d$").unwrap().is_match(c.encode_utf8(&mut buf))
}

/// The outcome of a step of the parser: a value and where the parse goes on, an error
/// message, or a panic of the parser (a slice across a character boundary or a
/// missing match).
pub enum Parsed<T> {
    Done(T, int),
    Fail(Seq<char>),
    Panics,
}

/// Whether `c` is ASCII.
pub open spec fn ascii(c: char) -> bool {
    (c as u32) < 128
}

/// Whether `c` is an ASCII letter.
pub open spec fn alpha(c: char) -> bool {
    ('a' <= c && c <= 'z') || ('A' <= c && c <= 'Z')
}

/// The byte offset of the character at `k`.
pub open spec fn byte_pos(s: Seq<char>, k: int) -> nat {
    encode_utf8(s.take(k)).len()
}

/// The number of bytes of `s`.
pub open spec fn byte_len(s: Seq<char>) -> nat {
    encode_utf8(s).len()
}

/// The decimal digits of `n`.
pub open spec fn decimal(n: nat) -> Seq<char>
    decreases n,
{
    if n < 10 {
        seq![digit_char(n)]
    } else {
        decimal(n / 10).push(digit_char(n % 10))
    }
}

/// The digit character for `d`.
pub open spec fn digit_char(d: nat) -> char {
    "0123456789"@[d as int]
}

/// The text from `c` to the end.
pub open spec fn rest(s: Seq<char>, c: int) -> Seq<char> {
    s.subrange(c, s.len() as int)
}

/// An error message: `prefix`, the byte offset of `c`, `sep`, then `text`.
pub open spec fn message(prefix: Seq<char>, s: Seq<char>, c: int, sep: Seq<char>, text: Seq<char>) -> Seq<char> {
    prefix + decimal(byte_pos(s, c)) + sep + text
}

/// The length of the run from `c` of characters satisfying `p`.
pub open spec fn run(s: Seq<char>, c: int, p: spec_fn(char) -> bool) -> nat
    decreases s.len() - c,
{
    if c < 0 || c >= s.len() || !p(s[c]) {
        0
    } else {
        1 + run(s, c + 1, p)
    }
}

/// Characters of a property key.
pub open spec fn key_class(c: char) -> bool {
    alpha(c) || c == '-'
}

/// Characters of a number: digits and dots.
pub open spec fn num_class(c: char) -> bool {
    unicode_digit(c) || c == '.'
}

/// Characters of a string body before its closing quote.
pub open spec fn str_class(c: char) -> bool {
    c != '"' && c != '\\'
}

/// The last position `j` with `lo <= j < hi` where `s[c + j] == x`.
pub open spec fn last_at(s: Seq<char>, c: int, lo: int, hi: int, x: char) -> Option<int>
    decreases hi - lo,
{
    if hi <= lo {
        None
    } else if s[c + hi - 1] == x {
        Some(hi - 1)
    } else {
        last_at(s, c, lo, hi - 1, x)
    }
}

/// Whether every character of `t` is a decimal digit.
pub open spec fn all_digits(t: Seq<char>) -> bool {
    forall|i: int| 0 <= i < t.len() ==> unicode_digit(t[i])
}

/// What parsing the digits `t` as an integer no larger than `max` gives, scanning from the
/// left: the value, or the message of the error met first.
pub open spec fn int_parse(t: Seq<char>, i: int, acc: nat, max: nat) -> Result<nat, Seq<char>>
    decreases t.len() - i,
{
    if i >= t.len() {
        Ok(acc)
    } else if !('0' <= t[i] && t[i] <= '9') {
        Err("invalid digit found in string"@)
    } else if acc * 10 + (t[i] as nat - '0' as nat) > max {
        Err("number too large to fit in target type"@)
    } else {
        int_parse(t, i + 1, (acc * 10 + (t[i] as nat - '0' as nat)) as nat, max)
    }
}

/// Whether `t` has the shape of a decimal number: digits, then optionally a dot and digits.
pub open spec fn float_shape(t: Seq<char>) -> bool {
    let d = run(t, 0, |c: char| unicode_digit(c));
    d >= 1 && (d == t.len() || (t[d as int] == '.' && d + 1 < t.len() && all_digits(
        t.subrange(d as int + 1, t.len() as int),
    )))
}

/// Whether every character of `t` is ASCII.
pub open spec fn all_ascii(t: Seq<char>) -> bool {
    forall|i: int| 0 <= i < t.len() ==> ascii(t[i])
}

/// A property key at `c`: letters and dashes followed by a colon.
pub open spec fn p_key(s: Seq<char>, c: int) -> Parsed<Seq<char>> {
    if c >= s.len() {
        Parsed::Fail("NBT not closed"@)
    } else {
        let r = run(s, c, |x: char| key_class(x));
        if r >= 1 && c + r < s.len() && s[c + r] == ':' {
            Parsed::Done(s.subrange(c, c + r), c + r + 1)
        } else {
            Parsed::Fail(message("Invalid property key at "@, s, c, ", "@, rest(s, c)))
        }
    }
}

/// A string body at `c` (after its opening quote) up to its closing quote.
pub open spec fn p_string(s: Seq<char>, c: int) -> Parsed<NbtView> {
    if c >= s.len() {
        Parsed::Fail("NBT not closed"@)
    } else {
        let r = run(s, c, |x: char| str_class(x));
        if c + r < s.len() && s[c + r] == '"' {
            Parsed::Done(NbtView::Str(s.subrange(c, c + r)), c + r + 1)
        } else {
            match last_at(s, c, 0, r as int, '\'') {
                Some(j) => Parsed::Done(NbtView::Str(s.subrange(c, c + j)), c + j + 1),
                None => Parsed::Fail(message("Invalid string at "@, s, c, ", "@, rest(s, c))),
            }
        }
    }
}

/// A number at `c`, which starts with a digit, typed by its suffix.
pub open spec fn p_num(s: Seq<char>, c: int) -> Parsed<NbtView> {
    if c >= s.len() {
        Parsed::Fail("NBT not closed"@)
    } else {
        let r = run(s, c, |x: char| num_class(x));
        let end: Option<int> = if c + r < s.len() {
            Some(r as int + 1)
        } else {
            match last_at(s, c, 1, r as int, '.') {
                Some(j) => Some(j + 1),
                None => None,
            }
        };
        match end {
            None => Parsed::Panics,
            Some(end) => {
                let num = s.subrange(c, c + end);
                let l = num.last();
                let pre = num.drop_last();
                let dig = end >= 2 && unicode_digit(num[end - 2]);
                if (l == 'b' || l == 'B') && dig {
                    if all_digits(pre) {
                        match int_parse(pre, 0, 0, 127) {
                            Ok(v) => Parsed::Done(NbtView::Byte(v as i8), c + end),
                            Err(e) => Parsed::Fail(
                                message("Invalid value for type byte "@, s, c, ": "@, num) + ", "@
                                    + e,
                            ),
                        }
                    } else {
                        Parsed::Fail(message("Invalid byte at "@, s, c, ", "@, num))
                    }
                } else if (l == 's' || l == 'S') && dig {
                    if all_digits(pre) {
                        match int_parse(pre, 0, 0, 32767) {
                            Ok(v) => Parsed::Done(NbtView::Short(v as i16), c + end),
                            Err(e) => Parsed::Fail(
                                message("Invalid value for type short "@, s, c, ": "@, num) + ", "@
                                    + e,
                            ),
                        }
                    } else {
                        Parsed::Fail(message("Invalid short at "@, s, c, ", "@, num))
                    }
                } else if !(l == 'd' || l == 'D' || l == 'l' || l == 'L' || l == 'b' || l == 'B' || l
                    == 's' || l == 'S' || l == 'f' || l == 'F') {
                    let d = run(s, c, |x: char| unicode_digit(x));
                    match int_parse(s.subrange(c, c + d), 0, 0, 2147483647) {
                        Ok(v) => Parsed::Done(NbtView::Int(v as i32), c + d),
                        Err(e) => Parsed::Fail(
                            message("Invalid value for type int "@, s, c, ": "@, num) + ", "@ + e,
                        ),
                    }
                } else if (l == 'l' || l == 'L') && dig {
                    if all_digits(pre) {
                        match int_parse(pre, 0, 0, 9223372036854775807) {
                            Ok(v) => Parsed::Done(NbtView::Long(v as i64), c + end),
                            Err(e) => Parsed::Fail(
                                message("Invalid value for type long "@, s, c, ": "@, num) + ", "@
                                    + e,
                            ),
                        }
                    } else {
                        Parsed::Fail(message("Invalid long at "@, s, c, ", "@, num))
                    }
                } else if (l == 'f' || l == 'F') && dig {
                    if float_shape(pre) {
                        if all_ascii(pre) {
                            Parsed::Done(NbtView::Float(pre), c + end)
                        } else {
                            Parsed::Fail(
                                message("Invalid value for type float "@, s, c, ": "@, num) + ", "@
                                    + "invalid float literal"@,
                            )
                        }
                    } else {
                        Parsed::Fail(message("Invalid float at "@, s, c, ", "@, rest(s, c)))
                    }
                } else if (l == 'd' || l == 'D') && dig {
                    if float_shape(pre) {
                        if all_ascii(pre) {
                            Parsed::Done(NbtView::Double(pre), c + end)
                        } else {
                            Parsed::Fail(
                                message("Invalid value for type double "@, s, c, ": "@, num) + ", "@
                                    + "invalid float literal"@,
                            )
                        }
                    } else {
                        Parsed::Fail(message("Invalid double at "@, s, c, ", "@, num))
                    }
                } else {
                    Parsed::Fail(message("Invalid number at "@, s, c, ", "@, rest(s, c)))
                }
            },
        }
    }
}

/// Whether two tags are of the same type.
pub open spec fn same_variant(a: NbtView, b: NbtView) -> bool {
    match (a, b) {
        (NbtView::Byte(_), NbtView::Byte(_)) => true,
        (NbtView::Short(_), NbtView::Short(_)) => true,
        (NbtView::Int(_), NbtView::Int(_)) => true,
        (NbtView::Long(_), NbtView::Long(_)) => true,
        (NbtView::Float(_), NbtView::Float(_)) => true,
        (NbtView::Double(_), NbtView::Double(_)) => true,
        (NbtView::ByteArray(_), NbtView::ByteArray(_)) => true,
        (NbtView::Str(_), NbtView::Str(_)) => true,
        (NbtView::List(_), NbtView::List(_)) => true,
        (NbtView::Compound(_), NbtView::Compound(_)) => true,
        (NbtView::IntArray(_), NbtView::IntArray(_)) => true,
        (NbtView::LongArray(_), NbtView::LongArray(_)) => true,
        _ => false,
    }
}

/// Whether `tag` may join a list ending in `list`: same type as the last tag, and for lists,
/// recursively the same type as the last tag's last tag. `None` where that check panics: on a
/// new tag that is an empty list following a list.
pub open spec fn same_types(list: Seq<NbtView>, tag: NbtView) -> Option<bool>
    decreases tag,
{
    if list.len() == 0 {
        Some(true)
    } else if !same_variant(list.last(), tag) {
        Some(false)
    } else {
        match tag {
            NbtView::List(val) => match list.last() {
                NbtView::List(val2) => if val.len() == 0 {
                    None
                } else {
                    same_types(val2, val[val.len() - 1])
                },
                _ => Some(false),
            },
            _ => Some(true),
        }
    }
}

/// A value at `c`.
pub open spec fn p_value(s: Seq<char>, c: int) -> Parsed<NbtView>
    decreases s.len() - c, 2int,
{
    if c < 0 || c >= s.len() {
        Parsed::Fail("NBT not closed"@)
    } else if !ascii(s[c]) {
        Parsed::Panics
    } else if s[c] == '{' {
        match p_compound(s, c + 1, Seq::empty()) {
            Parsed::Done(m, e) => Parsed::Done(NbtView::Compound(m), e),
            Parsed::Fail(x) => Parsed::Fail(x),
            Parsed::Panics => Parsed::Panics,
        }
    } else if '0' <= s[c] && s[c] <= '9' {
        p_num(s, c)
    } else if s[c] == '"' || s[c] == '\'' {
        p_string(s, c + 1)
    } else if s[c] == '[' {
        match p_list(s, c + 1, c + 1, Seq::empty()) {
            Parsed::Done(l, e) => Parsed::Done(NbtView::List(l), e),
            Parsed::Fail(x) => Parsed::Fail(x),
            Parsed::Panics => Parsed::Panics,
        }
    } else {
        Parsed::Fail(message("Error parsing value at "@, s, c, ", "@, rest(s, c)))
    }
}

/// The entries of a compound from `c` on (after its opening brace or a comma), added to `acc`.
pub open spec fn p_compound(s: Seq<char>, c: int, acc: Seq<(Seq<char>, NbtView)>) -> Parsed<
    Seq<(Seq<char>, NbtView)>,
>
    decreases s.len() - c, 1int,
{
    if c < 1 || c >= s.len() {
        Parsed::Fail("NBT not closed"@)
    } else if !ascii(s[c]) {
        Parsed::Panics
    } else if alpha(s[c]) {
        match p_key(s, c) {
            Parsed::Done(k, c1) => if c1 <= c {
                Parsed::Panics
            } else {
                match p_value(s, c1) {
                    Parsed::Done(v, c2) => if c2 <= c || c2 > s.len() {
                        Parsed::Panics
                    } else {
                        p_end(s, c2, compound_set(acc, k, v))
                    },
                    Parsed::Fail(x) => Parsed::Fail(x),
                    Parsed::Panics => Parsed::Panics,
                }
            },
            Parsed::Fail(x) => Parsed::Fail(x),
            Parsed::Panics => Parsed::Panics,
        }
    } else if s[c] == '}' && !ascii(s[c - 1]) {
        Parsed::Panics
    } else if s[c] == '}' && s[c - 1] != ',' {
        Parsed::Done(acc, c + 1)
    } else {
        Parsed::Fail(message("Error parsing compound tag at "@, s, c, ", "@, rest(s, c)))
    }
}

/// The end of a compound entry at `c`: a comma and more entries, or the closing brace.
pub open spec fn p_end(s: Seq<char>, c: int, acc: Seq<(Seq<char>, NbtView)>) -> Parsed<
    Seq<(Seq<char>, NbtView)>,
>
    decreases s.len() - c, 0int,
{
    if c < 0 || c >= s.len() {
        Parsed::Fail("NBT not closed"@)
    } else if !ascii(s[c]) {
        Parsed::Panics
    } else if s[c] == ',' {
        p_compound(s, c + 1, acc)
    } else if s[c] == '}' {
        Parsed::Done(acc, c + 1)
    } else {
        Parsed::Fail(message("Error parsing compound tag ending at "@, s, c, ", "@, rest(s, c)))
    }
}

/// The elements of a list from `c` on, added to `acc`; the list's body starts at `start`.
pub open spec fn p_list(s: Seq<char>, c: int, start: int, acc: Seq<NbtView>) -> Parsed<Seq<NbtView>>
    decreases s.len() - c, 3int,
{
    if c < 0 || c > s.len() || byte_pos(s, c) + 1 >= byte_len(s) {
        Parsed::Fail("List not closed"@)
    } else {
        match p_value(s, c) {
            Parsed::Done(v, e) => if e <= c || e > s.len() {
                Parsed::Panics
            } else {
                match same_types(acc, v) {
                    None => Parsed::Panics,
                    Some(false) => Parsed::Fail(
                        message(
                            "Values in list are not of same type, "@,
                            s,
                            e,
                            ": "@,
                            s.subrange(start, e),
                        ),
                    ),
                    Some(true) => if e >= s.len() || !ascii(s[e]) {
                        Parsed::Panics
                    } else if s[e] == ']' {
                        Parsed::Done(acc.push(v), e + 1)
                    } else if s[e] != ',' {
                        Parsed::Fail(
                            message("Invalid list at "@, s, e, ", "@, s.subrange(start, e + 1)),
                        )
                    } else {
                        p_list(s, e + 1, start, acc.push(v))
                    },
                }
            },
            Parsed::Fail(x) => Parsed::Fail(x),
            Parsed::Panics => Parsed::Panics,
        }
    }
}

/// What parsing `s` from `c` on gives: the root compound, an error message, or a panic.
pub open spec fn p_root(s: Seq<char>, c: int) -> Parsed<Seq<(Seq<char>, NbtView)>> {
    if c < 0 || c >= s.len() || !ascii(s[c]) {
        Parsed::Panics
    } else if s[c] == '{' {
        match p_compound(s, c + 1, Seq::empty()) {
            Parsed::Done(m, e) => if byte_pos(s, e) + 1 < byte_len(s) {
                Parsed::Fail(
                    message("Unexpected characters after closing tag "@, s, e, ": "@, rest(s, e)),
                )
            } else {
                Parsed::Done(m, e)
            },
            Parsed::Fail(x) => Parsed::Fail(x),
            Parsed::Panics => Parsed::Panics,
        }
    } else {
        Parsed::Fail("Invalid root tag: "@ + seq![s[c]])
    }
}

/// The outcome of an executable parsing step.
pub enum Step<T> {
    Done(T),
    Fail(String),
    Panics,
}

/// The text being parsed, as a string and as characters, and the current position.
struct Cursor {
    data: String,
    chars: Vec<char>,
    pos: usize,
}

/// The decimal text of `n`.
pub(crate) fn decimal_string(n: usize) -> (r: String)
    ensures
        r@ == decimal(n as nat),
    decreases n,
{
    let digits = "0123456789";
    proof {
        reveal_strlit("0123456789");
    }
    if n < 10 {
        let mut r = String::new();
        r.append(digits.substring_char(n, n + 1));
        assert(r@ =~= seq![digit_char(n as nat)]);
        r
    } else {
        let mut r = decimal_string(n / 10);
        let d = n % 10;
        r.append(digits.substring_char(d, d + 1));
        assert(r@ =~= decimal((n / 10) as nat).push(digit_char(d as nat)));
        r
    }
}

impl Cursor {
    spec fn wf(&self) -> bool {
        &&& self.chars@ == self.data@
        &&& self.chars@.len() < usize::MAX
    }

    spec fn s(&self) -> Seq<char> {
        self.chars@
    }

    /// The byte offset of the character at `c`.
    fn byte_pos_of(&self, c: usize) -> (r: usize)
        requires
            self.wf(),
            c <= self.s().len(),
        ensures
            r == byte_pos(self.s(), c as int),
    {
        let prefix = self.data.as_str().substring_char(0, c);
        assert(prefix@ =~= self.s().take(c as int));
        prefix.as_bytes().len()
    }

    /// The text between positions `a` and `b`.
    fn text(&self, a: usize, b: usize) -> (r: &str)
        requires
            self.wf(),
            a <= b <= self.s().len(),
        ensures
            r@ == self.s().subrange(a as int, b as int),
    {
        self.data.as_str().substring_char(a, b)
    }

    /// An error message: `prefix`, the byte offset of `c`, `sep`, then `text`.
    fn message(&self, prefix: &str, c: usize, sep: &str, text: &str) -> (r: String)
        requires
            self.wf(),
            c <= self.s().len(),
        ensures
            r@ == message(prefix@, self.s(), c as int, sep@, text@),
    {
        let mut r = String::from_str(prefix);
        let n = self.byte_pos_of(c);
        let d = decimal_string(n);
        r.append(d.as_str());
        r.append(sep);
        r.append(text);
        r
    }

    /// The length of the run of key characters from `c`.
    fn key_run(&self, c: usize) -> (r: usize)
        requires
            self.wf(),
            c <= self.s().len(),
        ensures
            r == run(self.s(), c as int, |x: char| key_class(x)),
            c + r <= self.s().len(),
    {
        let n = self.chars.len();
        let mut i = c;
        while i < n && (('a' <= self.chars[i] && self.chars[i] <= 'z') || ('A' <= self.chars[i] && self.chars[i] <= 'Z') || self.chars[i] == '-')
            invariant
                n == self.s().len(),
                c <= i <= n,
                run(self.s(), c as int, |x: char| key_class(x)) == (i - c) + run(self.s(), i as int, |x: char| key_class(x)),
            decreases n - i,
        {
            i += 1;
        }
        i - c
    }

    /// The length of the run of string-body characters from `c`.
    fn str_run(&self, c: usize) -> (r: usize)
        requires
            self.wf(),
            c <= self.s().len(),
        ensures
            r == run(self.s(), c as int, |x: char| str_class(x)),
            c + r <= self.s().len(),
    {
        let n = self.chars.len();
        let mut i = c;
        while i < n && self.chars[i] != '"' && self.chars[i] != '\\'
            invariant
                n == self.s().len(),
                c <= i <= n,
                run(self.s(), c as int, |x: char| str_class(x)) == (i - c) + run(self.s(), i as int, |x: char| str_class(x)),
            decreases n - i,
        {
            i += 1;
        }
        i - c
    }

    /// The length of the run of digits and dots from `c`.
    fn num_run(&self, c: usize) -> (r: usize)
        requires
            self.wf(),
            c <= self.s().len(),
        ensures
            r == run(self.s(), c as int, |x: char| num_class(x)),
            c + r <= self.s().len(),
    {
        let n = self.chars.len();
        let mut i = c;
        while i < n && (self.chars[i] == '.' || is_unicode_digit(self.chars[i]))
            invariant
                n == self.s().len(),
                c <= i <= n,
                run(self.s(), c as int, |x: char| num_class(x)) == (i - c) + run(self.s(), i as int, |x: char| num_class(x)),
            decreases n - i,
        {
            i += 1;
        }
        i - c
    }

    /// The length of the run of digits from `c`.
    fn digit_run(&self, c: usize) -> (r: usize)
        requires
            self.wf(),
            c <= self.s().len(),
        ensures
            r == run(self.s(), c as int, |x: char| unicode_digit(x)),
            c + r <= self.s().len(),
    {
        let n = self.chars.len();
        let mut i = c;
        while i < n && is_unicode_digit(self.chars[i])
            invariant
                n == self.s().len(),
                c <= i <= n,
                run(self.s(), c as int, |x: char| unicode_digit(x)) == (i - c) + run(self.s(), i as int, |x: char| unicode_digit(x)),
            decreases n - i,
        {
            i += 1;
        }
        i - c
    }

    /// The last position `j` with `lo <= j < hi` where the character at `c + j` is `x`.
    fn last_at(&self, c: usize, lo: usize, hi: usize, x: char) -> (r: Option<usize>)
        requires
            self.wf(),
            c + hi <= self.s().len(),
        ensures
            match last_at(self.s(), c as int, lo as int, hi as int, x) {
                Some(j) => r == Some(j as usize) && lo <= j < hi,
                None => r is None,
            },
            r matches Some(j) ==> self.s()[c + j] == x,
    {
        let mut h = hi;
        while h > lo
            invariant
                self.wf(),
                c + hi <= self.s().len(),
                lo <= h <= hi || h <= lo,
                h <= hi,
                last_at(self.s(), c as int, lo as int, hi as int, x) == last_at(self.s(), c as int, lo as int, h as int, x),
            decreases h,
        {
            if self.chars[c + h - 1] == x {
                return Some(h - 1);
            }
            h -= 1;
        }
        None
    }
}

/// A run within a part of the text ends where it ends in the whole text, when the part ends at
/// a character outside the run's class.
proof fn lemma_run_sub(s: Seq<char>, a: int, b: int, i: int, p: spec_fn(char) -> bool)
    requires
        0 <= a <= i <= b <= s.len(),
        b < s.len() ==> !p(s[b]),
    ensures
        run(s.subrange(a, b), i - a, p) == run(s, i, p),
    decreases b - i,
{
    if i < b {
        lemma_run_sub(s, a, b, i + 1, p);
        assert(s.subrange(a, b)[i - a] == s[i]);
    }
}

/// A run never passes the end of the text.
proof fn lemma_run_bound(s: Seq<char>, c: int, p: spec_fn(char) -> bool)
    requires
        0 <= c <= s.len(),
    ensures
        c + run(s, c, p) <= s.len(),
        forall|k: int| c <= k < c + run(s, c, p) ==> p(s[k]),
        c + run(s, c, p) < s.len() ==> !p(s[c + run(s, c, p)]),
    decreases s.len() - c,
{
    if c < s.len() && p(s[c]) {
        lemma_run_bound(s, c + 1, p);
    }
}

impl Cursor {
    /// Parses the digits between `a` and `b` as an integer no larger than `max`.
    fn int_parse(&self, a: usize, b: usize, max: u64) -> (r: Result<u64, &'static str>)
        requires
            self.wf(),
            a <= b <= self.s().len(),
        ensures
            match int_parse(self.s().subrange(a as int, b as int), 0, 0, max as nat) {
                Ok(v) => r == Ok::<u64, &'static str>(v as u64) && v <= max,
                Err(e) => r matches Err(m) && m@ == e,
            },
    {
        let ghost t = self.s().subrange(a as int, b as int);
        let mut acc: u64 = 0;
        let mut i = a;
        while i < b
            invariant
                self.wf(),
                t == self.s().subrange(a as int, b as int),
                a <= i <= b <= self.s().len(),
                acc <= max,
                int_parse(t, 0, 0, max as nat) == int_parse(t, i - a, acc as nat, max as nat),
            decreases b - i,
        {
            let ch = self.chars[i];
            assert(t[i - a] == ch);
            if !('0' <= ch && ch <= '9') {
                return Err("invalid digit found in string");
            }
            let d = (ch as u32 - '0' as u32) as u128;
            let next: u128 = acc as u128 * 10 + d;
            if next > max as u128 {
                return Err("number too large to fit in target type");
            }
            acc = next as u64;
            i += 1;
        }
        Ok(acc)
    }

    /// Whether every character between `a` and `b` is a digit.
    fn all_digits(&self, a: usize, b: usize) -> (r: bool)
        requires
            self.wf(),
            a <= b <= self.s().len(),
        ensures
            r == all_digits(self.s().subrange(a as int, b as int)),
    {
        let ghost t = self.s().subrange(a as int, b as int);
        let mut i = a;
        while i < b
            invariant
                self.wf(),
                t == self.s().subrange(a as int, b as int),
                a <= i <= b <= self.s().len(),
                forall|k: int| 0 <= k < i - a ==> unicode_digit(t[k]),
            decreases b - i,
        {
            if !is_unicode_digit(self.chars[i]) {
                assert(t[i - a] == self.chars@[i as int]);
                return false;
            }
            i += 1;
        }
        true
    }

    /// Whether every character between `a` and `b` is ASCII.
    fn all_ascii(&self, a: usize, b: usize) -> (r: bool)
        requires
            self.wf(),
            a <= b <= self.s().len(),
        ensures
            r == all_ascii(self.s().subrange(a as int, b as int)),
    {
        let ghost t = self.s().subrange(a as int, b as int);
        let mut i = a;
        while i < b
            invariant
                self.wf(),
                t == self.s().subrange(a as int, b as int),
                a <= i <= b <= self.s().len(),
                forall|k: int| 0 <= k < i - a ==> ascii(t[k]),
            decreases b - i,
        {
            if (self.chars[i] as u32) >= 128 {
                assert(t[i - a] == self.chars@[i as int]);
                return false;
            }
            i += 1;
        }
        true
    }

    /// Whether the characters between `a` and `b`, with a non-digit at `b`, have the shape of
    /// a decimal number.
    fn float_shape(&self, a: usize, b: usize) -> (r: bool)
        requires
            self.wf(),
            a <= b < self.s().len(),
            !unicode_digit(self.s()[b as int]),
        ensures
            r == float_shape(self.s().subrange(a as int, b as int)),
    {
        let ghost t = self.s().subrange(a as int, b as int);
        let d = self.digit_run(a);
        proof {
            lemma_run_bound(self.s(), a as int, |x: char| unicode_digit(x));
            lemma_run_sub(self.s(), a as int, b as int, a as int, |x: char| unicode_digit(x));
        }
        if d < 1 {
            return false;
        }
        if a + d == b {
            return true;
        }
        assert(t[d as int] == self.chars@[a + d]);
        if self.chars[a + d] == '.' && a + d + 1 < b {
            assert(t.subrange(d + 1, t.len() as int) =~= self.s().subrange(a + d + 1, b as int));
            self.all_digits(a + d + 1, b)
        } else {
            false
        }
    }

    /// A property key at the cursor.
    fn key(&mut self) -> (r: Step<String>)
        requires
            old(self).wf(),
        ensures
            final(self).wf(),
            final(self).chars@ == old(self).chars@,
            final(self).data@ == old(self).data@,
            r matches Step::Done(_) ==> final(self).pos <= final(self).s().len(),
            match p_key(old(self).s(), old(self).pos as int) {
                Parsed::Done(k, e) => r matches Step::Done(t) && t@ == k && final(self).pos == e,
                Parsed::Fail(x) => r matches Step::Fail(m) && m@ == x,
                Parsed::Panics => r is Panics,
            },
    {
        let c = self.pos;
        let n = self.chars.len();
        if c >= n {
            return Step::Fail(String::from_str("NBT not closed"));
        }
        let r = self.key_run(c);
        if r >= 1 && c + r < n && self.chars[c + r] == ':' {
            let k = String::from_str(self.text(c, c + r));
            self.pos = c + r + 1;
            Step::Done(k)
        } else {
            let rest = self.text(c, n);
            Step::Fail(self.message("Invalid property key at ", c, ", ", rest))
        }
    }

    /// A string body at the cursor, up to its closing quote.
    fn string(&mut self) -> (r: Step<NbtTag>)
        requires
            old(self).wf(),
        ensures
            final(self).wf(),
            final(self).chars@ == old(self).chars@,
            final(self).data@ == old(self).data@,
            r matches Step::Done(_) ==> final(self).pos <= final(self).s().len(),
            match p_string(old(self).s(), old(self).pos as int) {
                Parsed::Done(v, e) => r matches Step::Done(t) && tag_view(t) == v && final(self).pos == e,
                Parsed::Fail(x) => r matches Step::Fail(m) && m@ == x,
                Parsed::Panics => r is Panics,
            },
    {
        let c = self.pos;
        let n = self.chars.len();
        if c >= n {
            return Step::Fail(String::from_str("NBT not closed"));
        }
        let r = self.str_run(c);
        if c + r < n && self.chars[c + r] == '"' {
            let body = String::from_str(self.text(c, c + r));
            self.pos = c + r + 1;
            return Step::Done(NbtTag::StringModUtf8(body));
        }
        match self.last_at(c, 0, r, '\'') {
            Some(j) => {
                let body = String::from_str(self.text(c, c + j));
                self.pos = c + j + 1;
                Step::Done(NbtTag::StringModUtf8(body))
            },
            None => {
                let rest = self.text(c, n);
                Step::Fail(self.message("Invalid string at ", c, ", ", rest))
            },
        }
    }
}

impl Cursor {
    /// Appends `, ` and `tail` to `m`.
    fn with_tail(m: String, tail: &str) -> (r: String)
        ensures
            r@ == m@ + ", "@ + tail@,
    {
        let mut m = m;
        m.append(", ");
        m.append(tail);
        m
    }

    /// A number at the cursor, typed by its suffix.
    #[verifier::rlimit(60)]
    fn num(&mut self) -> (r: Step<NbtTag>)
        requires
            old(self).wf(),
        ensures
            final(self).wf(),
            final(self).chars@ == old(self).chars@,
            final(self).data@ == old(self).data@,
            r matches Step::Done(_) ==> final(self).pos <= final(self).s().len(),
            match p_num(old(self).s(), old(self).pos as int) {
                Parsed::Done(v, e) => r matches Step::Done(t) && tag_view(t) == v && final(self).pos == e,
                Parsed::Fail(x) => r matches Step::Fail(m) && m@ == x,
                Parsed::Panics => r is Panics,
            },
    {
        let c = self.pos;
        let n = self.chars.len();
        if c >= n {
            return Step::Fail(String::from_str("NBT not closed"));
        }
        let ghost s = self.s();
        let r = self.num_run(c);
        proof {
            lemma_run_bound(s, c as int, |x: char| num_class(x));
        }
        let end: usize;
        if c + r < n {
            end = r + 1;
        } else {
            match self.last_at(c, 1, r, '.') {
                Some(j) => {
                    end = j + 1;
                },
                None => {
                    return Step::Panics;
                },
            }
        }
        let ghost num = s.subrange(c as int, c + end);
        let l = self.chars[c + end - 1];
        let dig = end >= 2 && is_unicode_digit(self.chars[c + end - 2]);
        let num_text = self.text(c, c + end);
        proof {
            assert(num.last() == l);
            assert(end >= 2 ==> num[end - 2] == s[c + end - 2]);
            assert(num.drop_last() =~= s.subrange(c as int, c + end - 1));
        }
        if (l == 'b' || l == 'B') && dig {
            if self.all_digits(c, c + end - 1) {
                match self.int_parse(c, c + end - 1, 127) {
                    Ok(v) => {
                        self.pos = c + end;
                        Step::Done(NbtTag::Byte(v as i8))
                    },
                    Err(e) => {
                        let m = self.message("Invalid value for type byte ", c, ": ", num_text);
                        Step::Fail(Self::with_tail(m, e))
                    },
                }
            } else {
                Step::Fail(self.message("Invalid byte at ", c, ", ", num_text))
            }
        } else if (l == 's' || l == 'S') && dig {
            if self.all_digits(c, c + end - 1) {
                match self.int_parse(c, c + end - 1, 32767) {
                    Ok(v) => {
                        self.pos = c + end;
                        Step::Done(NbtTag::Short(v as i16))
                    },
                    Err(e) => {
                        let m = self.message("Invalid value for type short ", c, ": ", num_text);
                        Step::Fail(Self::with_tail(m, e))
                    },
                }
            } else {
                Step::Fail(self.message("Invalid short at ", c, ", ", num_text))
            }
        } else if !(l == 'd' || l == 'D' || l == 'l' || l == 'L' || l == 'b' || l == 'B' || l == 's'
            || l == 'S' || l == 'f' || l == 'F') {
            let d = self.digit_run(c);
            proof {
                lemma_run_bound(s, c as int, |x: char| unicode_digit(x));
            }
            match self.int_parse(c, c + d, 2147483647) {
                Ok(v) => {
                    self.pos = c + d;
                    Step::Done(NbtTag::Int(v as i32))
                },
                Err(e) => {
                    let m = self.message("Invalid value for type int ", c, ": ", num_text);
                    Step::Fail(Self::with_tail(m, e))
                },
            }
        } else if (l == 'l' || l == 'L') && dig {
            if self.all_digits(c, c + end - 1) {
                match self.int_parse(c, c + end - 1, 9223372036854775807) {
                    Ok(v) => {
                        self.pos = c + end;
                        Step::Done(NbtTag::Long(v as i64))
                    },
                    Err(e) => {
                        let m = self.message("Invalid value for type long ", c, ": ", num_text);
                        Step::Fail(Self::with_tail(m, e))
                    },
                }
            } else {
                Step::Fail(self.message("Invalid long at ", c, ", ", num_text))
            }
        } else if (l == 'f' || l == 'F') && dig {
            proof {
                assert(c + r < n);
                assert(!num_class(s[c + r]));
            }
            if self.float_shape(c, c + end - 1) {
                if self.all_ascii(c, c + end - 1) {
                    let text = String::from_str(self.text(c, c + end - 1));
                    self.pos = c + end;
                    Step::Done(NbtTag::Float(text))
                } else {
                    let m = self.message("Invalid value for type float ", c, ": ", num_text);
                    Step::Fail(Self::with_tail(m, "invalid float literal"))
                }
            } else {
                let rest = self.text(c, n);
                Step::Fail(self.message("Invalid float at ", c, ", ", rest))
            }
        } else if (l == 'd' || l == 'D') && dig {
            proof {
                assert(c + r < n);
                assert(!num_class(s[c + r]));
            }
            if self.float_shape(c, c + end - 1) {
                if self.all_ascii(c, c + end - 1) {
                    let text = String::from_str(self.text(c, c + end - 1));
                    self.pos = c + end;
                    Step::Done(NbtTag::Double(text))
                } else {
                    let m = self.message("Invalid value for type double ", c, ": ", num_text);
                    Step::Fail(Self::with_tail(m, "invalid float literal"))
                }
            } else {
                Step::Fail(self.message("Invalid double at ", c, ", ", num_text))
            }
        } else {
            let rest = self.text(c, n);
            Step::Fail(self.message("Invalid number at ", c, ", ", rest))
        }
    }
}

/// Setting a name in a compound whose names are distinct sets it in its contents.
pub(crate) proof fn lemma_compound_set(before: Seq<(String, NbtTag)>, after: Seq<(String, NbtTag)>, name: String, tag: NbtTag)
    requires
        forall|i: int, j: int| 0 <= i < j < before.len() ==> before[i].0@ != before[j].0@,
        forall|j: int|
            0 <= j < before.len() && before[j].0@ == name@ ==> after == before.update(j, (before[j].0, tag)),
        (forall|i: int| 0 <= i < before.len() ==> before[i].0@ != name@) ==> after == before.push((name, tag)),
    ensures
        compound_view(after) == compound_set(compound_view(before), name@, tag_view(tag)),
        forall|i: int, j: int| 0 <= i < j < after.len() ==> after[i].0@ != after[j].0@,
{
    let cv = compound_view(before);
    if exists|i: int| 0 <= i < before.len() && before[i].0@ == name@ {
        let j = choose|i: int| 0 <= i < before.len() && before[i].0@ == name@;
        assert(cv[j].0 == name@);
        let k = choose|i: int| 0 <= i < cv.len() && cv[i].0 == name@;
        assert(cv[k].0 == before[k].0@);
        if k != j {
            if k < j {
                assert(before[k].0@ != before[j].0@);
            } else {
                assert(before[j].0@ != before[k].0@);
            }
        }
        assert(compound_view(after) =~= cv.update(j, (name@, tag_view(tag))));
    } else {
        assert forall|i: int| 0 <= i < cv.len() implies cv[i].0 != name@ by {
            assert(cv[i].0 == before[i].0@);
        }
        assert(compound_view(after) =~= cv.push((name@, tag_view(tag))));
    }
}

/// Whether two tags are of the same type.
fn is_same_variant(a: &NbtTag, b: &NbtTag) -> (r: bool)
    ensures
        r == same_variant(tag_view(*a), tag_view(*b)),
{
    match (a, b) {
        (NbtTag::Byte(_), NbtTag::Byte(_)) => true,
        (NbtTag::Short(_), NbtTag::Short(_)) => true,
        (NbtTag::Int(_), NbtTag::Int(_)) => true,
        (NbtTag::Long(_), NbtTag::Long(_)) => true,
        (NbtTag::Float(_), NbtTag::Float(_)) => true,
        (NbtTag::Double(_), NbtTag::Double(_)) => true,
        (NbtTag::ByteArray(_), NbtTag::ByteArray(_)) => true,
        (NbtTag::StringModUtf8(_), NbtTag::StringModUtf8(_)) => true,
        (NbtTag::List(_), NbtTag::List(_)) => true,
        (NbtTag::Compound(_), NbtTag::Compound(_)) => true,
        (NbtTag::IntArray(_), NbtTag::IntArray(_)) => true,
        (NbtTag::LongArray(_), NbtTag::LongArray(_)) => true,
        _ => false,
    }
}

/// Whether `tag` may join `list`; `None` where the check panics.
fn is_same_types(list: &NbtList, tag: &NbtTag) -> (r: Option<bool>)
    ensures
        r == same_types(list_view(list.0@), tag_view(*tag)),
    decreases tag,
{
    let n = list.0.len();
    if n == 0 {
        return Some(true);
    }
    let last = &list.0[n - 1];
    proof {
        assert(list_view(list.0@).last() == tag_view(list.0@[n - 1]));
    }
    if !is_same_variant(last, tag) {
        return Some(false);
    }
    match tag {
        NbtTag::List(val) => match last {
            NbtTag::List(val2) => {
                let m = val.0.len();
                if m == 0 {
                    None
                } else {
                    proof {
                        assert(list_view(val.0@)[m - 1] == tag_view(val.0@[m - 1]));
                    }
                    is_same_types(val2, &val.0[m - 1])
                }
            },
            _ => Some(false),
        },
        _ => Some(true),
    }
}

impl Cursor {
    /// A value at the cursor.
    fn value(&mut self) -> (r: Step<NbtTag>)
        requires
            old(self).wf(),
        ensures
            final(self).wf(),
            final(self).chars@ == old(self).chars@,
            final(self).data@ == old(self).data@,
            r matches Step::Done(_) ==> final(self).pos <= final(self).s().len(),
            match p_value(old(self).s(), old(self).pos as int) {
                Parsed::Done(v, e) => r matches Step::Done(t) && tag_view(t) == v && final(self).pos == e,
                Parsed::Fail(x) => r matches Step::Fail(m) && m@ == x,
                Parsed::Panics => r is Panics,
            },
        decreases old(self).s().len() - old(self).pos, 2int,
    {
        let c = self.pos;
        let n = self.chars.len();
        if c >= n {
            return Step::Fail(String::from_str("NBT not closed"));
        }
        let ch = self.chars[c];
        if (ch as u32) >= 128 {
            return Step::Panics;
        }
        if ch == '{' {
            self.pos = c + 1;
            let fresh = NbtCompound::new();
            assert(compound_view(fresh.0@) =~= Seq::<(Seq<char>, NbtView)>::empty());
            match self.compound(fresh) {
                Step::Done(m) => Step::Done(NbtTag::Compound(m)),
                Step::Fail(x) => Step::Fail(x),
                Step::Panics => Step::Panics,
            }
        } else if '0' <= ch && ch <= '9' {
            self.num()
        } else if ch == '"' || ch == '\'' {
            self.pos = c + 1;
            self.string()
        } else if ch == '[' {
            self.pos = c + 1;
            let fresh = NbtList::new();
            assert(list_view(fresh.0@) =~= Seq::<NbtView>::empty());
            match self.list(c + 1, fresh) {
                Step::Done(l) => Step::Done(NbtTag::List(l)),
                Step::Fail(x) => Step::Fail(x),
                Step::Panics => Step::Panics,
            }
        } else {
            let rest = self.text(c, n);
            Step::Fail(self.message("Error parsing value at ", c, ", ", rest))
        }
    }

    /// The entries of a compound from the cursor on, added to `acc`.
    fn compound(&mut self, acc: NbtCompound) -> (r: Step<NbtCompound>)
        requires
            old(self).wf(),
            acc.wf(),
        ensures
            final(self).wf(),
            final(self).chars@ == old(self).chars@,
            final(self).data@ == old(self).data@,
            r matches Step::Done(_) ==> final(self).pos <= final(self).s().len(),
            match p_compound(old(self).s(), old(self).pos as int, compound_view(acc.0@)) {
                Parsed::Done(v, e) => r matches Step::Done(t) && compound_view(t.0@) == v && t.wf() && final(self).pos == e,
                Parsed::Fail(x) => r matches Step::Fail(m) && m@ == x,
                Parsed::Panics => r is Panics,
            },
        decreases old(self).s().len() - old(self).pos, 1int,
    {
        let c = self.pos;
        let n = self.chars.len();
        if c < 1 || c >= n {
            return Step::Fail(String::from_str("NBT not closed"));
        }
        let ch = self.chars[c];
        if (ch as u32) >= 128 {
            return Step::Panics;
        }
        if ('a' <= ch && ch <= 'z') || ('A' <= ch && ch <= 'Z') {
            match self.key() {
                Step::Done(k) => {
                    let c1 = self.pos;
                    if c1 <= c {
                        return Step::Panics;
                    }
                    match self.value() {
                        Step::Done(v) => {
                            let c2 = self.pos;
                            if c2 <= c || c2 > n {
                                return Step::Panics;
                            }
                            let mut acc = acc;
                            let ghost before = acc.0@;
                            let ghost k_copy = k;
                            let ghost v_copy = v;
                            acc.set(k, v);
                            proof {
                                lemma_compound_set(before, acc.0@, k_copy, v_copy);
                            }
                            self.end(acc)
                        },
                        Step::Fail(x) => Step::Fail(x),
                        Step::Panics => Step::Panics,
                    }
                },
                Step::Fail(x) => Step::Fail(x),
                Step::Panics => Step::Panics,
            }
        } else if ch == '}' && (self.chars[c - 1] as u32) >= 128 {
            Step::Panics
        } else if ch == '}' && self.chars[c - 1] != ',' {
            self.pos = c + 1;
            Step::Done(acc)
        } else {
            let rest = self.text(c, n);
            Step::Fail(self.message("Error parsing compound tag at ", c, ", ", rest))
        }
    }

    /// The end of a compound entry at the cursor.
    fn end(&mut self, acc: NbtCompound) -> (r: Step<NbtCompound>)
        requires
            old(self).wf(),
            acc.wf(),
        ensures
            final(self).wf(),
            final(self).chars@ == old(self).chars@,
            final(self).data@ == old(self).data@,
            r matches Step::Done(_) ==> final(self).pos <= final(self).s().len(),
            match p_end(old(self).s(), old(self).pos as int, compound_view(acc.0@)) {
                Parsed::Done(v, e) => r matches Step::Done(t) && compound_view(t.0@) == v && t.wf() && final(self).pos == e,
                Parsed::Fail(x) => r matches Step::Fail(m) && m@ == x,
                Parsed::Panics => r is Panics,
            },
        decreases old(self).s().len() - old(self).pos, 0int,
    {
        let c = self.pos;
        let n = self.chars.len();
        if c >= n {
            return Step::Fail(String::from_str("NBT not closed"));
        }
        let ch = self.chars[c];
        if (ch as u32) >= 128 {
            return Step::Panics;
        }
        if ch == ',' {
            self.pos = c + 1;
            self.compound(acc)
        } else if ch == '}' {
            self.pos = c + 1;
            Step::Done(acc)
        } else {
            let rest = self.text(c, n);
            Step::Fail(self.message("Error parsing compound tag ending at ", c, ", ", rest))
        }
    }

    /// The elements of a list from the cursor on, added to `acc`; the list's body starts at
    /// `start`.
    fn list(&mut self, start: usize, acc: NbtList) -> (r: Step<NbtList>)
        requires
            old(self).wf(),
            start <= old(self).pos,
        ensures
            final(self).wf(),
            final(self).chars@ == old(self).chars@,
            final(self).data@ == old(self).data@,
            r matches Step::Done(_) ==> final(self).pos <= final(self).s().len(),
            match p_list(old(self).s(), old(self).pos as int, start as int, list_view(acc.0@)) {
                Parsed::Done(v, e) => r matches Step::Done(t) && list_view(t.0@) == v && final(self).pos == e,
                Parsed::Fail(x) => r matches Step::Fail(m) && m@ == x,
                Parsed::Panics => r is Panics,
            },
        decreases old(self).s().len() - old(self).pos, 3int,
    {
        let c = self.pos;
        let n = self.chars.len();
        if c > n {
            return Step::Fail(String::from_str("List not closed"));
        }
        let total = self.data.as_str().as_bytes().len();
        let bp = self.byte_pos_of(c);
        if total == 0 || bp >= total - 1 {
            return Step::Fail(String::from_str("List not closed"));
        }
        proof {
            lemma_byte_pos_end(self.s());
        }
        match self.value() {
            Step::Done(v) => {
                let e = self.pos;
                if e <= c || e > n {
                    return Step::Panics;
                }
                match is_same_types(&acc, &v) {
                    None => Step::Panics,
                    Some(false) => {
                        let part = self.text(start, e);
                        Step::Fail(self.message("Values in list are not of same type, ", e, ": ", part))
                    },
                    Some(true) => {
                        if e >= n || (self.chars[e] as u32) >= 128 {
                            return Step::Panics;
                        }
                        let mut acc = acc;
                        let ghost before = acc.0@;
                        acc.add(v);
                        proof {
                            assert(list_view(acc.0@) =~= list_view(before).push(tag_view(v)));
                        }
                        if self.chars[e] == ']' {
                            self.pos = e + 1;
                            Step::Done(acc)
                        } else if self.chars[e] != ',' {
                            let part = self.text(start, e + 1);
                            Step::Fail(self.message("Invalid list at ", e, ", ", part))
                        } else {
                            self.pos = e + 1;
                            self.list(start, acc)
                        }
                    },
                }
            },
            Step::Fail(x) => Step::Fail(x),
            Step::Panics => Step::Panics,
        }
    }
}

/// The byte offset of the end of the text is its byte length.
proof fn lemma_byte_pos_end(s: Seq<char>)
    ensures
        byte_pos(s, s.len() as int) == byte_len(s),
{
    assert(s.take(s.len() as int) =~= s);
}

/// Parses text in the stringified form of the named binary tag format.
pub struct SnbtParser {
    data: String,
    cursor: usize,
}

impl SnbtParser {
    /// The text being parsed.
    pub closed spec fn text(&self) -> Seq<char> {
        self.data@
    }

    /// Where parsing goes on, in characters.
    pub closed spec fn position(&self) -> nat {
        self.cursor as nat
    }

    /// A parser at the start of `data`.
    pub fn new(data: &str) -> (p: SnbtParser)
        ensures
            p.text() == data@,
            p.position() == 0,
    {
        SnbtParser { data: String::from_str(data), cursor: 0 }
    }

    /// Parses the root compound from the current position. `None` where parsing
    /// panics: on empty text, on a character that is not ASCII where a single
    /// character is expected, on a number that runs to the end of the text, or on an empty
    /// list following a list inside a list.
    pub fn try_parse(&mut self) -> (r: Option<Result<NbtCompound, String>>)
        requires
            old(self).text().len() < usize::MAX,
        ensures
            final(self).text() == old(self).text(),
            match p_root(old(self).text(), old(self).position() as int) {
                Parsed::Done(m, e) => r matches Some(Ok(t)) && compound_view(t.0@) == m && t.wf()
                    && final(self).position() == e,
                Parsed::Fail(x) => r matches Some(Err(msg)) && msg@ == x,
                Parsed::Panics => r is None,
            },
    {
        let text = self.data.as_str();
        let n = text.unicode_len();
        let mut chars: Vec<char> = Vec::new();
        let mut i: usize = 0;
        while i < n
            invariant
                n == text@.len(),
                0 <= i <= n,
                chars@ == text@.take(i as int),
            decreases n - i,
        {
            chars.push(text.get_char(i));
            proof {
                assert(chars@ =~= text@.take(i + 1));
            }
            i += 1;
        }
        assert(text@.take(n as int) =~= text@);
        let c = self.cursor;
        let mut cur = Cursor { data: self.data.clone(), chars, pos: c };
        if c >= n || (cur.chars[c] as u32) >= 128 {
            return None;
        }
        if cur.chars[c] != '{' {
            let mut m = String::from_str("Invalid root tag: ");
            m.append(cur.text(c, c + 1));
            assert(m@ =~= "Invalid root tag: "@ + seq![text@[c as int]]);
            return Some(Err(m));
        }
        cur.pos = c + 1;
        let fresh = NbtCompound::new();
        assert(compound_view(fresh.0@) =~= Seq::<(Seq<char>, NbtView)>::empty());
        match cur.compound(fresh) {
            Step::Done(m) => {
                let e = cur.pos;
                self.cursor = e;
                let total = cur.data.as_str().as_bytes().len();
                let bp = cur.byte_pos_of(e);
                if total > 0 && bp < total - 1 {
                    let rest = cur.text(e, n);
                    Some(Err(cur.message("Unexpected characters after closing tag ", e, ": ", rest)))
                } else {
                    Some(Ok(m))
                }
            },
            Step::Fail(x) => Some(Err(x)),
            Step::Panics => None,
        }
    }

    /// Parses the root compound from the current position: a compound in braces, after which
    /// at most one more character may follow.
    pub fn parse(&mut self) -> (r: Result<NbtCompound, String>)
        requires
            old(self).text().len() < usize::MAX,
            !(p_root(old(self).text(), old(self).position() as int) is Panics),
        ensures
            final(self).text() == old(self).text(),
            match p_root(old(self).text(), old(self).position() as int) {
                Parsed::Done(m, e) => r matches Ok(t) && compound_view(t.0@) == m && t.wf()
                    && final(self).position() == e,
                Parsed::Fail(x) => r matches Err(msg) && msg@ == x,
                Parsed::Panics => false,
            },
    {
        match self.try_parse() {
            Some(r) => r,
            None => vstd::pervasive::unreached(),
        }
    }
}

/// The decimal value of the ASCII digits `d`.
pub open spec fn digits_value(d: Seq<char>) -> nat
    decreases d.len(),
{
    if d.len() == 0 {
        0
    } else {
        (digits_value(d.drop_last()) * 10 + (d.last() as nat - '0' as nat)) as nat
    }
}

/// Whether every character of `d` is one of the ASCII digits.
pub open spec fn ascii_digits(d: Seq<char>) -> bool {
    forall|m: int| 0 <= m < d.len() ==> '0' <= #[trigger] d[m] && d[m] <= '9'
}

/// A prefix of a digit string is worth no more than the whole.
proof fn lemma_prefix_value(d: Seq<char>, j: int)
    requires
        ascii_digits(d),
        0 <= j <= d.len(),
    ensures
        digits_value(d.take(j)) <= digits_value(d),
    decreases d.len() - j,
{
    if j < d.len() {
        lemma_prefix_value(d, j + 1);
        assert(d.take(j + 1).drop_last() =~= d.take(j));
        assert(d.take(j + 1).last() == d[j]);
    } else {
        assert(d.take(j) =~= d);
    }
}

/// Reading ASCII digits whose value fits `max` gives that value.
proof fn lemma_int_parse_value(d: Seq<char>, i: int, max: nat)
    requires
        ascii_digits(d),
        0 <= i <= d.len(),
        digits_value(d) <= max,
    ensures
        int_parse(d, i, digits_value(d.take(i)), max) == Result::<nat, Seq<char>>::Ok(digits_value(d)),
    decreases d.len() - i,
{
    if i < d.len() {
        assert(d.take(i + 1).drop_last() =~= d.take(i));
        assert(d.take(i + 1).last() == d[i]);
        lemma_prefix_value(d, i + 1);
        lemma_int_parse_value(d, i + 1, max);
    } else {
        assert(d.take(i) =~= d);
    }
}

/// A run of digits followed by a character outside the class is exactly that long.
proof fn lemma_run_digits(s: Seq<char>, c: int, k: int)
    requires
        0 <= c,
        0 <= k,
        c + k < s.len(),
        forall|m: int| c <= m < c + k ==> num_class(s[m]),
        !num_class(s[c + k]),
    ensures
        run(s, c, |x: char| num_class(x)) == k,
    decreases k,
{
    if k > 0 {
        lemma_run_digits(s, c + 1, k - 1);
    }
}

/// A long literal — one or more ASCII digits, then `L` or `l` — reads as the long whose value
/// the digits spell, for every value up to `i64::MAX`, and parsing goes on after the suffix.
pub proof fn law_long_literal(s: Seq<char>, c: int, k: int)
    requires
        0 <= c,
        1 <= k,
        c + k + 1 < s.len(),
        forall|m: int| c <= m < c + k ==> '0' <= #[trigger] s[m] && s[m] <= '9' && unicode_digit(s[m]),
        s[c + k] == 'L' || s[c + k] == 'l',
        !unicode_digit(s[c + k]),
        digits_value(s.subrange(c, c + k)) <= i64::MAX,
    ensures
        p_num(s, c) == Parsed::Done(NbtView::Long(digits_value(s.subrange(c, c + k)) as i64), c + k + 1),
{
    lemma_run_digits(s, c, k);
    let num = s.subrange(c, c + k + 1);
    let pre = num.drop_last();
    assert(pre =~= s.subrange(c, c + k));
    assert(num.last() == s[c + k]);
    assert(num[k - 1] == s[c + k - 1]);
    assert(ascii_digits(pre)) by {
        assert forall|m: int| 0 <= m < pre.len() implies '0' <= #[trigger] pre[m] && pre[m] <= '9' by {
            assert(pre[m] == s[c + m]);
        }
    }
    assert(all_digits(pre)) by {
        assert forall|m: int| 0 <= m < pre.len() implies unicode_digit(pre[m]) by {
            assert(pre[m] == s[c + m]);
        }
    }
    assert(pre.take(0) =~= Seq::<char>::empty());
    lemma_int_parse_value(pre, 0, 9223372036854775807);
}

/// A byte literal — one or more ASCII digits, then `B` or `b` — reads as the byte whose
/// value the digits spell, for every value up to 127, and parsing goes on after the suffix.
pub proof fn law_byte_literal(s: Seq<char>, c: int, k: int)
    requires
        0 <= c,
        1 <= k,
        c + k + 1 < s.len(),
        forall|m: int| c <= m < c + k ==> '0' <= #[trigger] s[m] && s[m] <= '9' && unicode_digit(s[m]),
        s[c + k] == 'B' || s[c + k] == 'b',
        !unicode_digit(s[c + k]),
        digits_value(s.subrange(c, c + k)) <= 127,
    ensures
        p_num(s, c) == Parsed::Done(NbtView::Byte(digits_value(s.subrange(c, c + k)) as i8), c + k + 1),
{
    lemma_run_digits(s, c, k);
    let num = s.subrange(c, c + k + 1);
    let pre = num.drop_last();
    assert(pre =~= s.subrange(c, c + k));
    assert(num.last() == s[c + k]);
    assert(num[k - 1] == s[c + k - 1]);
    assert(ascii_digits(pre)) by {
        assert forall|m: int| 0 <= m < pre.len() implies '0' <= #[trigger] pre[m] && pre[m] <= '9' by {
            assert(pre[m] == s[c + m]);
        }
    }
    assert(all_digits(pre)) by {
        assert forall|m: int| 0 <= m < pre.len() implies unicode_digit(pre[m]) by {
            assert(pre[m] == s[c + m]);
        }
    }
    assert(pre.take(0) =~= Seq::<char>::empty());
    lemma_int_parse_value(pre, 0, 127);
}

/// A short literal — one or more ASCII digits, then `S` or `s` — reads as the short whose
/// value the digits spell, for every value up to 32767, and parsing goes on after the suffix.
pub proof fn law_short_literal(s: Seq<char>, c: int, k: int)
    requires
        0 <= c,
        1 <= k,
        c + k + 1 < s.len(),
        forall|m: int| c <= m < c + k ==> '0' <= #[trigger] s[m] && s[m] <= '9' && unicode_digit(s[m]),
        s[c + k] == 'S' || s[c + k] == 's',
        !unicode_digit(s[c + k]),
        digits_value(s.subrange(c, c + k)) <= 32767,
    ensures
        p_num(s, c) == Parsed::Done(NbtView::Short(digits_value(s.subrange(c, c + k)) as i16), c + k + 1),
{
    lemma_run_digits(s, c, k);
    let num = s.subrange(c, c + k + 1);
    let pre = num.drop_last();
    assert(pre =~= s.subrange(c, c + k));
    assert(num.last() == s[c + k]);
    assert(num[k - 1] == s[c + k - 1]);
    assert(ascii_digits(pre)) by {
        assert forall|m: int| 0 <= m < pre.len() implies '0' <= #[trigger] pre[m] && pre[m] <= '9' by {
            assert(pre[m] == s[c + m]);
        }
    }
    assert(all_digits(pre)) by {
        assert forall|m: int| 0 <= m < pre.len() implies unicode_digit(pre[m]) by {
            assert(pre[m] == s[c + m]);
        }
    }
    assert(pre.take(0) =~= Seq::<char>::empty());
    lemma_int_parse_value(pre, 0, 32767);
}

/// An int literal — one or more ASCII digits followed by a character that is neither a digit,
/// a dot nor a type suffix — reads as the int whose value the digits spell, for every value up
/// to `i32::MAX`, and parsing goes on at the character after the digits.
pub proof fn law_int_literal(s: Seq<char>, c: int, k: int)
    requires
        0 <= c,
        1 <= k,
        c + k < s.len(),
        forall|m: int| c <= m < c + k ==> '0' <= #[trigger] s[m] && s[m] <= '9' && unicode_digit(s[m]),
        !num_class(s[c + k]),
        !(s[c + k] == 'd' || s[c + k] == 'D' || s[c + k] == 'l' || s[c + k] == 'L' || s[c + k] == 'b'
            || s[c + k] == 'B' || s[c + k] == 's' || s[c + k] == 'S' || s[c + k] == 'f' || s[c + k]
            == 'F'),
        digits_value(s.subrange(c, c + k)) <= 2147483647,
    ensures
        p_num(s, c) == Parsed::Done(NbtView::Int(digits_value(s.subrange(c, c + k)) as i32), c + k),
{
    lemma_run_digits(s, c, k);
    assert forall|m: int| c <= m < c + k implies unicode_digit(s[m]) by {}
    lemma_run_unicode_digits(s, c, k);
    let d = s.subrange(c, c + k);
    assert(ascii_digits(d)) by {
        assert forall|m: int| 0 <= m < d.len() implies '0' <= #[trigger] d[m] && d[m] <= '9' by {
            assert(d[m] == s[c + m]);
        }
    }
    assert(d.take(0) =~= Seq::<char>::empty());
    lemma_int_parse_value(d, 0, 2147483647);
}

/// A run of digits followed by a non-digit is exactly that long.
proof fn lemma_run_unicode_digits(s: Seq<char>, c: int, k: int)
    requires
        0 <= c,
        0 <= k,
        c + k < s.len(),
        forall|m: int| c <= m < c + k ==> unicode_digit(s[m]),
        !unicode_digit(s[c + k]),
    ensures
        run(s, c, |x: char| unicode_digit(x)) == k,
    decreases k,
{
    if k > 0 {
        lemma_run_unicode_digits(s, c + 1, k - 1);
    }
}

} // verus!
