use vstd::prelude::*;
use vstd::string::{StrSliceExecFns, StringExecFns};
use crate::qutil::uln::{find_colon, first_colon, lemma_first_colon_joined};

verus! {

/// A two-part identifier made of a namespace and a name, borrowing both.
#[derive(Clone, Copy, Debug)]
pub struct UnlocalizedName<'a> {
    namespace: &'a str,
    name: &'a str,
}

impl<'a> UnlocalizedName<'a> {
    /// The namespace.
    pub closed spec fn spec_namespace(&self) -> Seq<char> {
        self.namespace@
    }

    /// The name.
    pub closed spec fn spec_name(&self) -> Seq<char> {
        self.name@
    }

    /// The name `name` in the "minecraft" namespace.
    #[inline]
    pub fn minecraft(name: &'static str) -> (r: UnlocalizedName<'static>)
        ensures
            r.spec_namespace() == "minecraft"@,
            r.spec_name() == name@,
    {
        UnlocalizedName { namespace: "minecraft", name }
    }

    /// Splits `string` at its first colon into a namespace and a name. Fails when there is no
    /// colon, or when the colon is the first or the last character.
    pub fn parse(string: &'a str) -> (r: Result<UnlocalizedName<'a>, String>)
        ensures
            match first_colon(string@) {
                None => r matches Err(e) && e@ == "Expected ':' in unlocalized name."@,
                Some(k) => if k == 0 || k == string@.len() - 1 {
                    r matches Err(e) && e@ == "Expected two strings separated by a colon."@
                } else {
                    r matches Ok(n) && n.spec_namespace() == string@.take(k as int)
                        && n.spec_name() == string@.skip(k as int + 1)
                },
            },
    {
        match find_colon(string) {
            Some(index) => {
                let n = string.unicode_len();
                if index == 0 || index == n - 1 {
                    Err("Expected two strings separated by a colon.".to_owned())
                } else {
                    let namespace = string.substring_char(0, index);
                    let name = string.substring_char(index + 1, n);
                    Ok(UnlocalizedName { namespace, name })
                }
            },
            None => Err("Expected ':' in unlocalized name.".to_owned()),
        }
    }

    /// The namespace.
    pub fn namespace(&self) -> (r: &'a str)
        ensures
            r@ == self.spec_namespace(),
    {
        self.namespace
    }

    /// The name.
    pub fn name(&self) -> (r: &'a str)
        ensures
            r@ == self.spec_name(),
    {
        self.name
    }

    /// The name written out in full as `namespace:name`.
    pub fn to_string(&self) -> (s: String)
        ensures
            s@ == self.spec_namespace() + seq![':'] + self.spec_name(),
    {
        let mut s = String::from_str(self.namespace);
        s.append(":");
        s.append(self.name);
        proof {
            reveal_strlit(":");
        }
        s
    }

    /// Whether `self` and `other` have the same namespace and name.
    pub fn same_as(&self, other: &UnlocalizedName) -> (b: bool)
        ensures
            b == (self.spec_namespace() == other.spec_namespace() && self.spec_name()
                == other.spec_name()),
    {
        let a = self.namespace.to_owned();
        let b = other.namespace.to_owned();
        let c = self.name.to_owned();
        let d = other.name.to_owned();
        a == b && c == d
    }
}

/// A name whose namespace has no colon, and whose parts are not empty, parses back from its
/// text into the same namespace and name.
pub proof fn law_text_parses_back(namespace: Seq<char>, name: Seq<char>)
    requires
        namespace.len() > 0,
        name.len() > 0,
        forall|j: int| 0 <= j < namespace.len() ==> namespace[j] != ':',
    ensures
        ({
            let text = namespace + seq![':'] + name;
            &&& first_colon(text) == Some(namespace.len())
            &&& namespace.len() != 0 && namespace.len() != text.len() - 1
            &&& text.take(namespace.len() as int) == namespace
            &&& text.skip(namespace.len() as int + 1) == name
        }),
{
    let text = namespace + seq![':'] + name;
    lemma_first_colon_joined(namespace, name);
    assert(text.take(namespace.len() as int) =~= namespace);
    assert(text.skip(namespace.len() as int + 1) =~= name);
}

} // verus!
