use vstd::prelude::*;

use crate::text::{i64_numeral, parse_i64, str_eq};

verus! {

/// An attribute of a `Set-Cookie` header: a name and, unless it is a flag, a value.
#[derive(Clone, Debug, PartialEq, Eq)]
pub struct CookieAttribute {
    pub name: String,
    pub value: Option<String>,
}

/// A cookie of a response: a name, a value and its attributes, in order.
#[derive(Clone, Debug, PartialEq, Eq)]
pub struct ResponseCookie {
    pub name: String,
    pub value: String,
    pub attributes: Vec<CookieAttribute>,
}

/// The value of the first attribute named `name` that has a value.
pub open spec fn attribute_value(attrs: Seq<CookieAttribute>, name: Seq<char>) -> Option<Seq<char>>
    decreases attrs.len(),
{
    if attrs.len() == 0 {
        None
    } else if attrs[0].name@ == name && attrs[0].value is Some {
        Some(attrs[0].value->0@)
    } else {
        attribute_value(attrs.drop_first(), name)
    }
}

/// Some attribute is named `name`.
pub open spec fn has_attribute(attrs: Seq<CookieAttribute>, name: Seq<char>) -> bool {
    exists|i: int| 0 <= i < attrs.len() && #[trigger] attrs[i].name@ == name
}

/// The view of an optional string.
pub open spec fn opt_seq(o: Option<String>) -> Option<Seq<char>> {
    match o {
        Some(s) => Some(s@),
        None => None,
    }
}

impl ResponseCookie {
    /// The value of the first attribute named `name` that has a value.
    fn attribute(&self, name: &str) -> (r: Option<String>)
        ensures
            opt_seq(r) == attribute_value(self.attributes@, name@),
    {
        let ghost attrs = self.attributes@;
        let mut i: usize = 0;
        assert(attrs.skip(0) =~= attrs);
        while i < self.attributes.len()
            invariant
                i <= self.attributes.len(),
                attrs == self.attributes@,
                attribute_value(attrs, name@) == attribute_value(attrs.skip(i as int), name@),
            decreases self.attributes.len() - i,
        {
            assert(attrs.skip(i as int)[0] == attrs[i as int]);
            let attr = &self.attributes[i];
            if str_eq(attr.name.as_str(), name) {
                match &attr.value {
                    Some(v) => {
                        return Some(v.clone());
                    },
                    None => {},
                }
            }
            assert(attrs.skip(i as int).drop_first() =~= attrs.skip(i + 1));
            i += 1;
        }
        assert(attrs.skip(i as int) =~= Seq::<CookieAttribute>::empty());
        None
    }

    /// Whether some attribute is named `name`.
    fn has(&self, name: &str) -> (b: bool)
        ensures
            b == has_attribute(self.attributes@, name@),
    {
        let mut i: usize = 0;
        while i < self.attributes.len()
            invariant
                i <= self.attributes.len(),
                forall|k: int| 0 <= k < i ==> #[trigger] self.attributes@[k].name@ != name@,
            decreases self.attributes.len() - i,
        {
            if str_eq(self.attributes[i].name.as_str(), name) {
                return true;
            }
            i += 1;
        }
        false
    }

    /// The `Expires` attribute.
    pub fn expires(&self) -> (r: Option<String>)
        ensures
            opt_seq(r) == attribute_value(self.attributes@, "Expires"@),
    {
        self.attribute("Expires")
    }

    /// The `Max-Age` attribute, when it is a number.
    pub fn max_age(&self) -> (r: Option<i64>)
        ensures
            r == (match attribute_value(self.attributes@, "Max-Age"@) {
                Some(v) => match i64_numeral(v) {
                    Some(n) => Some(n as i64),
                    None => None,
                },
                None => None,
            }),
    {
        match self.attribute("Max-Age") {
            Some(v) => parse_i64(v.as_str()),
            None => None,
        }
    }

    /// The `Domain` attribute.
    pub fn domain(&self) -> (r: Option<String>)
        ensures
            opt_seq(r) == attribute_value(self.attributes@, "Domain"@),
    {
        self.attribute("Domain")
    }

    /// The `Path` attribute.
    pub fn path(&self) -> (r: Option<String>)
        ensures
            opt_seq(r) == attribute_value(self.attributes@, "Path"@),
    {
        self.attribute("Path")
    }

    /// Whether the cookie has the `Secure` flag.
    pub fn has_secure(&self) -> (b: bool)
        ensures
            b == has_attribute(self.attributes@, "Secure"@),
    {
        self.has("Secure")
    }

    /// Whether the cookie has the `HttpOnly` flag.
    pub fn has_httponly(&self) -> (b: bool)
        ensures
            b == has_attribute(self.attributes@, "HttpOnly"@),
    {
        self.has("HttpOnly")
    }

    /// The `SameSite` attribute.
    pub fn samesite(&self) -> (r: Option<String>)
        ensures
            opt_seq(r) == attribute_value(self.attributes@, "SameSite"@),
    {
        self.attribute("SameSite")
    }
}

} // verus!
