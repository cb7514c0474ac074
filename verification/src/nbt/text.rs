use vstd::prelude::*;
use vstd::string::{StrSliceExecFns, StringExecFns};
use crate::nbt::snbt::{decimal, digit_char};
use crate::nbt::tag::{NbtTag, NbtView, NbtCompound, NbtList, tag_view, list_view, compound_view};

verus! {

/// The decimal text of an integer, with a minus sign when it is negative.
pub open spec fn int_text(v: int) -> Seq<char> {
    if v < 0 {
        seq!['-'] + decimal((-v) as nat)
    } else {
        decimal(v as nat)
    }
}

/// The elements after the first of an array, each after a comma and a space and followed by
/// `suffix`.
pub open spec fn array_tail(items: Seq<int>, suffix: Seq<char>) -> Seq<char>
    decreases items.len(),
{
    if items.len() == 0 {
        Seq::empty()
    } else {
        array_tail(items.drop_last(), suffix) + ", "@ + int_text(items.last()) + suffix
    }
}

/// An array in brackets: the first element bare, every later one followed by `suffix`.
pub open spec fn array_text(items: Seq<int>, suffix: Seq<char>) -> Seq<char> {
    if items.len() == 0 {
        "[]"@
    } else {
        "["@ + int_text(items[0]) + array_tail(items.drop_first(), suffix) + "]"@
    }
}

/// Whether `s` holds a double quote.
pub open spec fn has_double_quote(s: Seq<char>) -> bool {
    exists|i: int| 0 <= i < s.len() && s[i] == '"'
}

/// The quote a string is written in: single where it holds a double quote, double otherwise.
pub open spec fn quote_of(s: Seq<char>) -> char {
    if has_double_quote(s) {
        '\''
    } else {
        '"'
    }
}

/// `s` with a backslash before each occurrence of `q` and of the backslash itself.
pub open spec fn escaped(s: Seq<char>, q: char) -> Seq<char>
    decreases s.len(),
{
    if s.len() == 0 {
        Seq::empty()
    } else {
        let c = s.last();
        escaped(s.drop_last(), q) + if c == q || c == '\\' {
            seq!['\\', c]
        } else {
            seq![c]
        }
    }
}

/// A string in its quotes, escaped.
pub open spec fn string_text(s: Seq<char>) -> Seq<char> {
    let q = quote_of(s);
    seq![q] + escaped(s, q) + seq![q]
}

/// The text of a tag in the stringified format.
pub open spec fn snbt_text(t: NbtView) -> Seq<char>
    decreases t,
{
    match t {
        NbtView::Byte(v) => int_text(v as int) + "b"@,
        NbtView::Short(v) => int_text(v as int) + "s"@,
        NbtView::Int(v) => int_text(v as int),
        NbtView::Long(v) => int_text(v as int) + "L"@,
        NbtView::Float(text) => text + "f"@,
        NbtView::Double(text) => text + "d"@,
        NbtView::ByteArray(v) => array_text(v.map_values(|x: i8| x as int), "b"@),
        NbtView::Str(s) => string_text(s),
        NbtView::List(items) => "["@ + items_text(items) + "]"@,
        NbtView::Compound(entries) => "{"@ + entries_text(entries) + "}"@,
        NbtView::IntArray(v) => array_text(v.map_values(|x: i32| x as int), Seq::empty()),
        NbtView::LongArray(v) => array_text(v.map_values(|x: i64| x as int), "L"@),
    }
}

/// The texts of tags separated by a comma and a space.
pub open spec fn items_text(items: Seq<NbtView>) -> Seq<char>
    decreases items,
{
    if items.len() == 0 {
        Seq::empty()
    } else if items.len() == 1 {
        snbt_text(items[0])
    } else {
        items_text(items.drop_last()) + ", "@ + snbt_text(items.last())
    }
}

/// Named tags written `name: tag`, separated by a comma and a space.
pub open spec fn entries_text(entries: Seq<(Seq<char>, NbtView)>) -> Seq<char>
    decreases entries,
{
    if entries.len() == 0 {
        Seq::empty()
    } else if entries.len() == 1 {
        entries[0].0 + ": "@ + snbt_text(entries[0].1)
    } else {
        entries_text(entries.drop_last()) + ", "@ + entries.last().0 + ": "@ + snbt_text(
            entries.last().1,
        )
    }
}

/// The decimal text of `n`.
fn decimal_u64(n: u64) -> (r: String)
    ensures
        r@ == decimal(n as nat),
    decreases n,
{
    let digits = "0123456789";
    proof {
        reveal_strlit("0123456789");
    }
    if n < 10 {
        let d = n as usize;
        let mut r = String::new();
        r.append(digits.substring_char(d, d + 1));
        assert(r@ =~= seq![digit_char(n as nat)]);
        r
    } else {
        let mut r = decimal_u64(n / 10);
        let d = (n % 10) as usize;
        r.append(digits.substring_char(d, d + 1));
        assert(r@ =~= decimal((n / 10) as nat).push(digit_char((n % 10) as nat)));
        r
    }
}

/// The decimal text of `v`, signed.
fn int_string(v: i64) -> (r: String)
    ensures
        r@ == int_text(v as int),
{
    if v < 0 {
        let magnitude: u64 = (-(v + 1)) as u64 + 1;
        let mut r = String::from_str("-");
        let d = decimal_u64(magnitude);
        r.append(d.as_str());
        proof {
            reveal_strlit("-");
        }
        r
    } else {
        decimal_u64(v as u64)
    }
}

/// An array of integers in brackets, every element after the first followed by `suffix`.
fn array_string(items: &Vec<i64>, suffix: &str) -> (r: String)
    ensures
        r@ == array_text(items@.map_values(|x: i64| x as int), suffix@),
{
    let ghost ints = items@.map_values(|x: i64| x as int);
    proof {
        reveal_strlit("[]");
        reveal_strlit("[");
        reveal_strlit("]");
        reveal_strlit(", ");
    }
    if items.len() == 0 {
        return String::from_str("[]");
    }
    let mut r = String::from_str("[");
    let first = int_string(items[0]);
    r.append(first.as_str());
    let mut i: usize = 1;
    while i < items.len()
        invariant
            1 <= i <= items@.len(),
            ints == items@.map_values(|x: i64| x as int),
            r@ == "["@ + int_text(ints[0]) + array_tail(ints.subrange(1, i as int), suffix@),
        decreases items@.len() - i,
    {
        let t = int_string(items[i]);
        r.append(", ");
        r.append(t.as_str());
        r.append(suffix);
        proof {
            assert(ints.subrange(1, i + 1).drop_last() =~= ints.subrange(1, i as int));
        }
        i += 1;
    }
    r.append("]");
    proof {
        assert(ints.subrange(1, items@.len() as int) =~= ints.drop_first());
    }
    r
}

/// Whether `s` holds a double quote.
fn find_double_quote(s: &str) -> (b: bool)
    ensures
        b == has_double_quote(s@),
{
    let n = s.unicode_len();
    let mut i: usize = 0;
    while i < n
        invariant
            n == s@.len(),
            0 <= i <= n,
            forall|k: int| 0 <= k < i ==> s@[k] != '"',
        decreases n - i,
    {
        if s.get_char(i) == '"' {
            return true;
        }
        i += 1;
    }
    false
}

/// A string in its quotes, escaped.
fn string_string(value: &str) -> (r: String)
    ensures
        r@ == string_text(value@),
{
    let double = find_double_quote(value);
    let quote = if double {
        "'"
    } else {
        "\""
    };
    let q: char = if double {
        '\''
    } else {
        '"'
    };
    proof {
        reveal_strlit("'");
        reveal_strlit("\"");
        reveal_strlit("\\");
        assert(quote@ =~= seq![quote_of(value@)]);
    }
    let mut r = String::from_str(quote);
    let n = value.unicode_len();
    let mut i: usize = 0;
    while i < n
        invariant
            n == value@.len(),
            0 <= i <= n,
            q == quote_of(value@),
            quote@ == seq![q],
            r@ == seq![q] + escaped(value@.take(i as int), q),
        decreases n - i,
    {
        let c = value.get_char(i);
        let ghost before = r@;
        let escape = c == q || c == '\\';
        if escape {
            let slash = "\\";
            proof {
                reveal_strlit("\\");
                assert(slash@ =~= seq!['\\']);
            }
            r.append(slash);
        }
        let one = value.substring_char(i, i + 1);
        assert(one@ =~= seq![c]);
        r.append(one);
        proof {
            let piece = if escape {
                seq!['\\', c]
            } else {
                seq![c]
            };
            assert(r@ =~= before + piece);
            assert(value@.take(i + 1).drop_last() =~= value@.take(i as int));
            assert(value@.take(i + 1).last() == c);
            assert(escaped(value@.take(i + 1), q) == escaped(value@.take(i as int), q) + piece);
            assert(r@ =~= seq![q] + escaped(value@.take(i + 1), q));
        }
        i += 1;
    }
    r.append(quote);
    proof {
        assert(value@.take(n as int) =~= value@);
    }
    r
}

/// The elements of a byte array as 64-bit values.
fn widen_bytes(v: &Vec<i8>) -> (r: Vec<i64>)
    ensures
        r@.map_values(|x: i64| x as int) == v@.map_values(|x: i8| x as int),
{
    let mut r: Vec<i64> = Vec::new();
    let mut i: usize = 0;
    while i < v.len()
        invariant
            0 <= i <= v@.len(),
            r@.len() == i,
            forall|k: int| 0 <= k < i ==> r@[k] as int == v@[k] as int,
        decreases v@.len() - i,
    {
        r.push(v[i] as i64);
        i += 1;
    }
    assert(r@.map_values(|x: i64| x as int) =~= v@.map_values(|x: i8| x as int));
    r
}

/// The elements of an int array as 64-bit values.
fn widen_ints(v: &Vec<i32>) -> (r: Vec<i64>)
    ensures
        r@.map_values(|x: i64| x as int) == v@.map_values(|x: i32| x as int),
{
    let mut r: Vec<i64> = Vec::new();
    let mut i: usize = 0;
    while i < v.len()
        invariant
            0 <= i <= v@.len(),
            r@.len() == i,
            forall|k: int| 0 <= k < i ==> r@[k] as int == v@[k] as int,
        decreases v@.len() - i,
    {
        r.push(v[i] as i64);
        i += 1;
    }
    assert(r@.map_values(|x: i64| x as int) =~= v@.map_values(|x: i32| x as int));
    r
}

/// `text` followed by the one-letter type suffix.
fn suffixed(text: String, suffix: &str) -> (r: String)
    ensures
        r@ == text@ + suffix@,
{
    let mut r = text;
    r.append(suffix);
    r
}

/// The text of a tag in the stringified format: numbers with their type suffix, strings
/// quoted, lists and arrays in brackets, compounds in braces with their tags in the order they
/// are held.
pub fn tag_text(t: &NbtTag) -> (r: String)
    ensures
        r@ == snbt_text(tag_view(*t)),
    decreases t,
{
    proof {
        reveal_strlit("b");
        reveal_strlit("s");
        reveal_strlit("L");
        reveal_strlit("f");
        reveal_strlit("d");
        reveal_strlit("");
    }
    match t {
        NbtTag::Byte(v) => suffixed(int_string(*v as i64), "b"),
        NbtTag::Short(v) => suffixed(int_string(*v as i64), "s"),
        NbtTag::Int(v) => int_string(*v as i64),
        NbtTag::Long(v) => suffixed(int_string(*v), "L"),
        NbtTag::Float(text) => suffixed(text.clone(), "f"),
        NbtTag::Double(text) => suffixed(text.clone(), "d"),
        NbtTag::ByteArray(v) => {
            let w = widen_bytes(v);
            let r = array_string(&w, "b");
            assert(r@ == array_text(v@.map_values(|x: i8| x as int), "b"@));
            r
        },
        NbtTag::StringModUtf8(value) => {
            let r = string_string(value.as_str());
            assert(r@ == string_text(value@));
            r
        },
        NbtTag::List(l) => {
            let r = list_text(l);
            assert(r@ == "["@ + items_text(list_view(l.0@)) + "]"@);
            r
        },
        NbtTag::Compound(c) => {
            let r = compound_text(c);
            assert(r@ == "{"@ + entries_text(compound_view(c.0@)) + "}"@);
            r
        },
        NbtTag::IntArray(v) => {
            let w = widen_ints(v);
            let none = "";
            proof {
                reveal_strlit("");
                assert(none@ =~= Seq::<char>::empty());
            }
            let r = array_string(&w, none);
            assert(r@ == array_text(v@.map_values(|x: i32| x as int), Seq::empty()));
            r
        },
        NbtTag::LongArray(v) => {
            let r = array_string(v, "L");
            assert(r@ == array_text(v@.map_values(|x: i64| x as int), "L"@));
            r
        },
    }
}

/// The text of a list: its tags in brackets, separated by a comma and a space.
pub fn list_text(l: &NbtList) -> (r: String)
    ensures
        r@ == "["@ + items_text(list_view(l.0@)) + "]"@,
    decreases l,
{
    let ghost views = list_view(l.0@);
    proof {
        reveal_strlit("[");
        reveal_strlit("]");
        reveal_strlit(", ");
    }
    let mut r = String::from_str("[");
    let mut i: usize = 0;
    while i < l.0.len()
        invariant
            0 <= i <= l.0@.len(),
            views == list_view(l.0@),
            r@ == "["@ + items_text(views.take(i as int)),
        decreases l.0@.len() - i,
    {
        if i > 0 {
            r.append(", ");
        }
        let e = tag_text(&l.0[i]);
        r.append(e.as_str());
        proof {
            assert(views.take(i + 1).drop_last() =~= views.take(i as int));
            assert(views.take(i + 1).last() == tag_view(l.0@[i as int]));
            if i == 0 {
                assert(views.take(1)[0] == tag_view(l.0@[0]));
            }
        }
        i += 1;
    }
    r.append("]");
    proof {
        assert(views.take(l.0@.len() as int) =~= views);
    }
    r
}

/// The text of a compound: its named tags in braces, written `name: tag` and separated by a
/// comma and a space, in the order they are held.
pub fn compound_text(c: &NbtCompound) -> (r: String)
    ensures
        r@ == "{"@ + entries_text(compound_view(c.0@)) + "}"@,
    decreases c,
{
    let ghost views = compound_view(c.0@);
    proof {
        reveal_strlit("{");
        reveal_strlit("}");
        reveal_strlit(", ");
        reveal_strlit(": ");
    }
    let mut r = String::from_str("{");
    let mut i: usize = 0;
    while i < c.0.len()
        invariant
            0 <= i <= c.0@.len(),
            views == compound_view(c.0@),
            r@ == "{"@ + entries_text(views.take(i as int)),
        decreases c.0@.len() - i,
    {
        if i > 0 {
            r.append(", ");
        }
        r.append(c.0[i].0.as_str());
        r.append(": ");
        let e = tag_text(&c.0[i].1);
        r.append(e.as_str());
        proof {
            assert(views.take(i + 1).drop_last() =~= views.take(i as int));
            assert(views.take(i + 1).last() == (c.0@[i as int].0@, tag_view(c.0@[i as int].1)));
            if i == 0 {
                assert(views.take(1)[0] == (c.0@[0].0@, tag_view(c.0@[0].1)));
            }
        }
        i += 1;
    }
    r.append("}");
    proof {
        assert(views.take(c.0@.len() as int) =~= views);
    }
    r
}

impl NbtTag {
    /// The tag in the stringified format.
    pub fn to_string(&self) -> (r: String)
        ensures
            r@ == snbt_text(tag_view(*self)),
    {
        tag_text(self)
    }
}

impl NbtList {
    /// The list in the stringified format: its tags in brackets.
    pub fn to_string(&self) -> (r: String)
        ensures
            r@ == "["@ + items_text(list_view(self.0@)) + "]"@,
    {
        list_text(self)
    }
}

impl NbtCompound {
    /// The compound in the stringified format: its named tags in braces.
    pub fn to_string(&self) -> (r: String)
        ensures
            r@ == "{"@ + entries_text(compound_view(self.0@)) + "}"@,
    {
        compound_text(self)
    }
}

} // verus!
