use vstd::prelude::*;
use vstd::string::{StrSliceExecFns, StringExecFns, StringSliceAdditionalSpecFns};
use vstd::utf8::encode_utf8;

verus! {

/// The largest number of bytes an unlocalized name may have: half the width of a 64-bit
/// `usize`, less the sign bit.
pub const MAX_ULN_LENGTH: usize = 0x7FFF_FFFF;

/// An error when parsing an unlocalized name from a string.
#[derive(Debug, Clone, Copy, PartialEq, Eq, Structural)]
pub enum ParseUnlocalizedNameError {
    /// Too large of a string was encountered.
    StringTooLarge(usize),
    /// An unlocalized name cannot be empty.
    EmptyInput,
    /// An explicit empty namespace was encountered.
    EmptyNamespace,
    /// An empty identifier was encountered.
    EmptyIdentifier,
}

/// The namespace used when none is given.
pub open spec fn minecraft_namespace() -> Seq<char> {
    seq!['m', 'i', 'n', 'e', 'c', 'r', 'a', 'f', 't']
}

/// The position of the first `':'` in `s`, if any.
pub open spec fn first_colon(s: Seq<char>) -> Option<nat> {
    if exists|i: int| 0 <= i < s.len() && s[i] == ':' && forall|j: int| 0 <= j < i ==> s[j] != ':' {
        Some(
            (choose|i: int|
                0 <= i < s.len() && s[i] == ':' && forall|j: int| 0 <= j < i ==> s[j] != ':') as nat,
        )
    } else {
        None
    }
}

/// What parsing `s` gives: the stored representation and the position of the colon in it
/// (`None` for the "minecraft" namespace), or the error.
pub open spec fn parse_uln(s: Seq<char>) -> Result<(Seq<char>, Option<nat>), ParseUnlocalizedNameError> {
    let byte_len = encode_utf8(s).len();
    if byte_len > MAX_ULN_LENGTH {
        Err(ParseUnlocalizedNameError::StringTooLarge(byte_len as usize))
    } else if s.len() == 0 {
        Err(ParseUnlocalizedNameError::EmptyInput)
    } else {
        match first_colon(s) {
            None => Ok((s, None)),
            Some(k) => if k == s.len() - 1 {
                Err(ParseUnlocalizedNameError::EmptyIdentifier)
            } else if k == 0 {
                Err(ParseUnlocalizedNameError::EmptyNamespace)
            } else if s.take(k as int) == minecraft_namespace() {
                Ok((s.skip(k as int + 1), None))
            } else {
                Ok((s, Some(k)))
            },
        }
    }
}

/// The namespace of a name stored as `repr` with its colon at `colon`.
pub open spec fn namespace_of(repr: Seq<char>, colon: Option<nat>) -> Seq<char> {
    match colon {
        None => minecraft_namespace(),
        Some(k) => repr.take(k as int),
    }
}

/// The identifier of a name stored as `repr` with its colon at `colon`.
pub open spec fn identifier_of(repr: Seq<char>, colon: Option<nat>) -> Seq<char> {
    match colon {
        None => repr,
        Some(k) => repr.skip(k as int + 1),
    }
}

/// The representation of the name stored as `repr` with its colon at `colon`: its identifier
/// when its namespace is "minecraft", else the namespace, a colon and the identifier.
pub open spec fn repr_text(repr: Seq<char>, colon: Option<nat>) -> Seq<char> {
    if namespace_of(repr, colon) == minecraft_namespace() {
        identifier_of(repr, colon)
    } else {
        namespace_of(repr, colon) + seq![':'] + identifier_of(repr, colon)
    }
}

/// A stored colon splits the representation into namespace, colon and identifier.
proof fn lemma_repr_text(repr: Seq<char>, colon: Option<nat>)
    requires
        colon matches Some(k) ==> k < repr.len() && repr[k as int] == ':' && repr.take(k as int)
            != minecraft_namespace(),
    ensures
        repr == repr_text(repr, colon),
{
    if let Some(k) = colon {
        assert(repr =~= repr.take(k as int) + seq![':'] + repr.skip(k as int + 1));
    }
}

/// Searches `s` for its first colon.
pub(crate) fn find_colon(s: &str) -> (r: Option<usize>)
    ensures
        r matches Some(k) ==> first_colon(s@) == Some(k as nat),
        r is None ==> first_colon(s@) is None,
{
    let n = s.unicode_len();
    let mut i: usize = 0;
    for ch in it: s.chars()
        invariant
            n == s@.len(),
            it.seq() == s@,
            i == it.index(),
            forall|j: int| 0 <= j < i ==> s@[j] != ':',
    {
        if ch == ':' {
            assert(s@[i as int] == ':');
            return Some(i);
        }
        i += 1;
    }
    None
}

/// Whether `ns` is the "minecraft" namespace.
fn is_minecraft(ns: &str) -> (b: bool)
    ensures
        b == (ns@ == minecraft_namespace()),
{
    let expected = "minecraft";
    proof {
        reveal_strlit("minecraft");
        assert(expected@ =~= minecraft_namespace());
    }
    if ns.unicode_len() != 9 {
        return false;
    }
    let mut i: usize = 0;
    while i < 9
        invariant
            ns@.len() == 9,
            expected@ == minecraft_namespace(),
            0 <= i <= 9,
            forall|j: int| 0 <= j < i ==> ns@[j] == expected@[j],
        decreases 9 - i,
    {
        if ns.get_char(i) != expected.get_char(i) {
            return false;
        }
        i += 1;
    }
    assert(ns@ =~= minecraft_namespace());
    true
}

/// A borrowed unlocalized name: a two-part identifier made of a namespace and an identifier.
#[derive(Clone, Copy, Debug)]
pub struct UlnStr<'a> {
    repr: &'a str,
    colon: usize,
}

impl<'a> UlnStr<'a> {
    /// The stored representation: `namespace:identifier`, or the identifier alone in the
    /// "minecraft" namespace.
    pub closed spec fn spec_repr(&self) -> Seq<char> {
        self.repr@
    }

    /// Where the colon of the representation is, if the namespace is stored.
    pub closed spec fn spec_colon(&self) -> Option<nat> {
        if self.colon == 0 {
            None
        } else {
            Some(self.colon as nat)
        }
    }

    /// The parts are well formed: a non-empty representation, and a stored colon, the first in
    /// it, that splits it into two non-empty parts, the first of them not "minecraft".
    pub closed spec fn wf(&self) -> bool {
        &&& self.repr@.len() > 0
        &&& self.colon < self.repr@.len()
        &&& self.colon > 0 ==> self.repr@[self.colon as int] == ':' && self.colon + 1
            < self.repr@.len()
        &&& self.colon > 0 ==> self.repr@.take(self.colon as int) != minecraft_namespace()
        &&& forall|j: int| 0 <= j < self.colon ==> self.repr@[j] != ':'
    }

    /// A name in the "minecraft" namespace with the given identifier.
    pub fn minecraft(ident: &'a str) -> (r: UlnStr<'a>)
        requires
            0 < encode_utf8(ident@).len() <= MAX_ULN_LENGTH,
        ensures
            r.wf(),
            r.spec_repr() == ident@,
            r.spec_colon() is None,
    {
        proof {
            vstd::utf8::encode_utf8_decode_utf8(ident@);
            if ident@.len() == 0 {
                assert(encode_utf8(ident@) =~= Seq::<u8>::empty()) by {
                    reveal_with_fuel(encode_utf8, 1);
                }
            }
        }
        UlnStr { repr: ident, colon: 0 }
    }

    /// Parses the given string into a borrowed unlocalized name. A string without a colon is an
    /// identifier in the "minecraft" namespace; "minecraft:" in front is dropped. An empty
    /// namespace or identifier is an error.
    pub fn from_str(s: &'a str) -> (r: Result<UlnStr<'a>, ParseUnlocalizedNameError>)
        ensures
            match parse_uln(s@) {
                Ok((repr, colon)) => r matches Ok(u) && u.wf() && u.spec_repr() == repr
                    && u.spec_colon() == colon,
                Err(e) => r == Err::<UlnStr<'a>, ParseUnlocalizedNameError>(e),
            },
    {
        let byte_len = s.as_bytes().len();
        if byte_len > MAX_ULN_LENGTH {
            return Err(ParseUnlocalizedNameError::StringTooLarge(byte_len));
        }
        if byte_len == 0 {
            proof {
                lemma_empty_bytes(s@);
            }
            return Err(ParseUnlocalizedNameError::EmptyInput);
        }
        proof {
            lemma_empty_bytes(s@);
        }
        let index = match find_colon(s) {
            Some(index) => index,
            None => {
                return Ok(UlnStr { repr: s, colon: 0 });
            },
        };
        let n = s.unicode_len();
        if index == n - 1 {
            return Err(ParseUnlocalizedNameError::EmptyIdentifier);
        }
        if index == 0 {
            return Err(ParseUnlocalizedNameError::EmptyNamespace);
        }
        let namespace = s.substring_char(0, index);
        if is_minecraft(namespace) {
            let ident = s.substring_char(index + 1, n);
            Ok(UlnStr { repr: ident, colon: 0 })
        } else {
            Ok(UlnStr { repr: s, colon: index })
        }
    }

    /// Returns the namespace of this unlocalized name.
    pub fn namespace(&self) -> (ns: &str)
        requires
            self.wf(),
        ensures
            ns@ == namespace_of(self.spec_repr(), self.spec_colon()),
    {
        if self.colon == 0 {
            let ns = "minecraft";
            proof {
                reveal_strlit("minecraft");
                assert(ns@ =~= minecraft_namespace());
            }
            ns
        } else {
            self.repr.substring_char(0, self.colon)
        }
    }

    /// Returns the identifier of this unlocalized name.
    pub fn identifier(&self) -> (id: &str)
        requires
            self.wf(),
        ensures
            id@ == identifier_of(self.spec_repr(), self.spec_colon()),
    {
        if self.colon == 0 {
            self.repr
        } else {
            let n = self.repr.unicode_len();
            self.repr.substring_char(self.colon + 1, n)
        }
    }

    /// Returns the internal string representation of this unlocalized name: the identifier
    /// alone in the "minecraft" namespace, `namespace:identifier` otherwise.
    pub fn repr(&self) -> (r: &str)
        ensures
            r@ == self.spec_repr(),
            self.wf() ==> r@ == repr_text(self.spec_repr(), self.spec_colon()),
    {
        proof {
            if self.wf() {
                lemma_repr_text(self.repr@, self.spec_colon());
            }
        }
        self.repr
    }
}

impl<'a> UlnStr<'a> {
    /// An owned copy of this name.
    pub fn to_owned(&self) -> (r: UnlocalizedName)
        requires
            self.wf(),
        ensures
            r.wf(),
            r.spec_repr() == self.spec_repr(),
            r.spec_colon() == self.spec_colon(),
    {
        UnlocalizedName { repr: String::from_str(self.repr), colon: self.colon }
    }

    /// The name written out in full as `namespace:identifier`.
    pub fn to_string(&self) -> (s: String)
        requires
            self.wf(),
        ensures
            s@ == namespace_of(self.spec_repr(), self.spec_colon()) + seq![':'] + identifier_of(
                self.spec_repr(),
                self.spec_colon(),
            ),
    {
        let mut s = String::from_str(self.namespace());
        let colon = ":";
        proof {
            reveal_strlit(":");
        }
        s.append(colon);
        s.append(self.identifier());
        s
    }
}

/// An owned unlocalized name, or a two-part identifier composed of a namespace and identifier
/// separated by a colon.
#[derive(Debug)]
pub struct UnlocalizedName {
    repr: String,
    colon: usize,
}

impl UnlocalizedName {
    /// The stored representation: `namespace:identifier`, or the identifier alone in the
    /// "minecraft" namespace.
    pub closed spec fn spec_repr(&self) -> Seq<char> {
        self.repr@
    }

    /// Where the colon of the representation is, if the namespace is stored.
    pub closed spec fn spec_colon(&self) -> Option<nat> {
        if self.colon == 0 {
            None
        } else {
            Some(self.colon as nat)
        }
    }

    /// The parts are well formed: a non-empty representation, and a stored colon, the first in
    /// it, that splits it into two non-empty parts, the first of them not "minecraft".
    pub closed spec fn wf(&self) -> bool {
        &&& self.repr@.len() > 0
        &&& self.colon < self.repr@.len()
        &&& self.colon > 0 ==> self.repr@[self.colon as int] == ':' && self.colon + 1
            < self.repr@.len()
        &&& self.colon > 0 ==> self.repr@.take(self.colon as int) != minecraft_namespace()
        &&& forall|j: int| 0 <= j < self.colon ==> self.repr@[j] != ':'
    }

    /// Returns an owned unlocalized name with namespace "minecraft" and the given identifier.
    pub fn minecraft(ident: String) -> (r: UnlocalizedName)
        requires
            0 < encode_utf8(ident@).len() <= MAX_ULN_LENGTH,
        ensures
            r.wf(),
            r.spec_repr() == ident@,
            r.spec_colon() is None,
    {
        proof {
            lemma_empty_bytes(ident@);
        }
        UnlocalizedName { repr: ident, colon: 0 }
    }

    /// Parses the given string into an unlocalized name and converts it to an owned value. See
    /// `UlnStr::from_str`.
    pub fn from_str(s: &str) -> (r: Result<UnlocalizedName, ParseUnlocalizedNameError>)
        ensures
            match parse_uln(s@) {
                Ok((repr, colon)) => r matches Ok(u) && u.wf() && u.spec_repr() == repr
                    && u.spec_colon() == colon,
                Err(e) => r is Err && r->Err_0 == e,
            },
    {
        match UlnStr::from_str(s) {
            Ok(u) => Ok(u.to_owned()),
            Err(e) => Err(e),
        }
    }

    /// Returns a borrow of this unlocalized name.
    pub fn as_uln_str(&self) -> (r: UlnStr<'_>)
        requires
            self.wf(),
        ensures
            r.wf(),
            r.spec_repr() == self.spec_repr(),
            r.spec_colon() == self.spec_colon(),
    {
        UlnStr { repr: self.repr.as_str(), colon: self.colon }
    }

    /// Returns the namespace of this unlocalized name.
    pub fn namespace(&self) -> (ns: &str)
        requires
            self.wf(),
        ensures
            ns@ == namespace_of(self.spec_repr(), self.spec_colon()),
    {
        if self.colon == 0 {
            let ns = "minecraft";
            proof {
                reveal_strlit("minecraft");
                assert(ns@ =~= minecraft_namespace());
            }
            ns
        } else {
            self.repr.as_str().substring_char(0, self.colon)
        }
    }

    /// Returns the identifier of this unlocalized name.
    pub fn identifier(&self) -> (id: &str)
        requires
            self.wf(),
        ensures
            id@ == identifier_of(self.spec_repr(), self.spec_colon()),
    {
        let repr = self.repr.as_str();
        if self.colon == 0 {
            repr
        } else {
            let n = repr.unicode_len();
            repr.substring_char(self.colon + 1, n)
        }
    }

    /// Returns the internal string representation of this unlocalized name: the identifier
    /// alone in the "minecraft" namespace, `namespace:identifier` otherwise.
    pub fn repr(&self) -> (r: &str)
        ensures
            r@ == self.spec_repr(),
            self.wf() ==> r@ == repr_text(self.spec_repr(), self.spec_colon()),
    {
        proof {
            if self.wf() {
                lemma_repr_text(self.repr@, self.spec_colon());
            }
        }
        self.repr.as_str()
    }

    /// A copy of this name.
    pub fn clone(&self) -> (r: UnlocalizedName)
        ensures
            r.spec_repr() == self.spec_repr(),
            r.spec_colon() == self.spec_colon(),
            self.wf() ==> r.wf(),
    {
        UnlocalizedName { repr: self.repr.clone(), colon: self.colon }
    }

    /// The name written out in full as `namespace:identifier`.
    pub fn to_string(&self) -> (s: String)
        requires
            self.wf(),
        ensures
            s@ == namespace_of(self.spec_repr(), self.spec_colon()) + seq![':'] + identifier_of(
                self.spec_repr(),
                self.spec_colon(),
            ),
    {
        self.as_uln_str().to_string()
    }
}

impl PartialEq for UnlocalizedName {
    fn eq(&self, other: &Self) -> (r: bool) {
        self.colon == other.colon && self.repr == other.repr
    }
}

impl vstd::std_specs::cmp::PartialEqSpecImpl for UnlocalizedName {
    open spec fn obeys_eq_spec() -> bool {
        true
    }

    open spec fn eq_spec(&self, other: &UnlocalizedName) -> bool {
        self.spec_colon() == other.spec_colon() && self.spec_repr() == other.spec_repr()
    }
}

impl<'a> PartialEq<UlnStr<'a>> for UnlocalizedName {
    fn eq(&self, other: &UlnStr<'a>) -> (r: bool) {
        self.colon == other.colon && self.repr == String::from_str(other.repr)
    }
}

impl<'a> vstd::std_specs::cmp::PartialEqSpecImpl<UlnStr<'a>> for UnlocalizedName {
    open spec fn obeys_eq_spec() -> bool {
        true
    }

    open spec fn eq_spec(&self, other: &UlnStr<'a>) -> bool {
        self.spec_colon() == other.spec_colon() && self.spec_repr() == other.spec_repr()
    }
}

pub(crate) proof fn lemma_empty_bytes(s: Seq<char>)
    ensures
        (s.len() == 0) == (encode_utf8(s).len() == 0),
{
    vstd::utf8::encode_utf8_decode_utf8(s);
    if s.len() == 0 {
        assert(encode_utf8(s) =~= Seq::<u8>::empty()) by {
            reveal_with_fuel(encode_utf8, 1);
        }
    } else if encode_utf8(s).len() == 0 {
        assert(vstd::utf8::decode_utf8(encode_utf8(s)) =~= Seq::<char>::empty()) by {
            reveal_with_fuel(vstd::utf8::decode_utf8, 1);
        }
    }
}

/// The first colon of `ns:id`, for a namespace without a colon, is the one after `ns`.
pub(crate) proof fn lemma_first_colon_joined(ns: Seq<char>, id: Seq<char>)
    requires
        forall|j: int| 0 <= j < ns.len() ==> ns[j] != ':',
    ensures
        first_colon(ns + seq![':'] + id) == Some(ns.len()),
{
    let t = ns + seq![':'] + id;
    let k = ns.len() as int;
    assert(t[k] == ':');
    assert(forall|j: int| 0 <= j < k ==> t[j] == ns[j]);
    let c = choose|i: int| 0 <= i < t.len() && t[i] == ':' && forall|j: int| 0 <= j < i ==> t[j] != ':';
    assert(0 <= c < t.len() && t[c] == ':' && forall|j: int| 0 <= j < c ==> t[j] != ':');
    if c < k {
        assert(t[c] == ns[c]);
    }
}

/// A well-formed name written out in full reads back as the same namespace and identifier,
/// whenever the written text fits the length limit.
pub proof fn law_text_parses_back(u: UnlocalizedName)
    requires
        u.wf(),
        encode_utf8(
            namespace_of(u.spec_repr(), u.spec_colon()) + seq![':'] + identifier_of(
                u.spec_repr(),
                u.spec_colon(),
            ),
        ).len() <= MAX_ULN_LENGTH,
    ensures
        ({
            let ns = namespace_of(u.spec_repr(), u.spec_colon());
            let id = identifier_of(u.spec_repr(), u.spec_colon());
            parse_uln(ns + seq![':'] + id) matches Ok((repr, colon)) && namespace_of(repr, colon)
                == ns && identifier_of(repr, colon) == id
        }),
{
    let ns = namespace_of(u.spec_repr(), u.spec_colon());
    let id = identifier_of(u.spec_repr(), u.spec_colon());
    let t = ns + seq![':'] + id;
    assert(forall|j: int| 0 <= j < ns.len() ==> ns[j] != ':') by {
        if u.spec_colon() is None {
            assert(ns =~= minecraft_namespace());
        } else {
            assert(forall|j: int| 0 <= j < ns.len() ==> ns[j] == u.spec_repr()[j]);
        }
    }
    lemma_first_colon_joined(ns, id);
    assert(ns.len() > 0);
    assert(id.len() > 0);
    assert(t.take(ns.len() as int) =~= ns);
    assert(t.skip(ns.len() as int + 1) =~= id);
}

/// The message describing a parse error.
pub open spec fn error_message(e: ParseUnlocalizedNameError) -> Seq<char> {
    match e {
        ParseUnlocalizedNameError::StringTooLarge(len) => "encountered unlocalized name of length "@
            + crate::nbt::snbt::decimal(len as nat) + ", the maximum length is "@
            + crate::nbt::snbt::decimal(MAX_ULN_LENGTH as nat),
        ParseUnlocalizedNameError::EmptyInput => "unlocalized name cannot be empty"@,
        ParseUnlocalizedNameError::EmptyNamespace => "empty namespace in unlocalized name"@,
        ParseUnlocalizedNameError::EmptyIdentifier => "empty identifier in unlocalized name"@,
    }
}

impl ParseUnlocalizedNameError {
    /// The message describing the error.
    pub fn to_string(&self) -> (r: String)
        ensures
            r@ == error_message(*self),
    {
        match self {
            ParseUnlocalizedNameError::StringTooLarge(len) => {
                let mut r = String::from_str("encountered unlocalized name of length ");
                let n = crate::nbt::snbt::decimal_string(*len);
                r.append(n.as_str());
                r.append(", the maximum length is ");
                let m = crate::nbt::snbt::decimal_string(MAX_ULN_LENGTH);
                r.append(m.as_str());
                proof {
                    reveal_strlit("encountered unlocalized name of length ");
                    reveal_strlit(", the maximum length is ");
                }
                r
            },
            ParseUnlocalizedNameError::EmptyInput => String::from_str("unlocalized name cannot be empty"),
            ParseUnlocalizedNameError::EmptyNamespace => String::from_str("empty namespace in unlocalized name"),
            ParseUnlocalizedNameError::EmptyIdentifier => String::from_str("empty identifier in unlocalized name"),
        }
    }
}

} // verus!
