use crate::text::{is_blank, text_is_blank};
use vstd::prelude::*;
use vstd::string::{StrSliceExecFns, StringExecFns};

verus! {

/// The most grapheme clusters a subscriber name may hold.
pub const MAX_NAME_GRAPHEMES: usize = 256;

/// Number of extended grapheme clusters in a text.
pub uninterp spec fn grapheme_count(s: Seq<char>) -> nat;

/// Whether a text passes the email syntax check.
pub uninterp spec fn email_is_valid(s: Seq<char>) -> bool;

/// Relies on `unicode_segmentation::UnicodeSegmentation::graphemes(s, true)`:
/// the number of extended grapheme clusters of `s`.
#[verifier::external_body]
fn count_graphemes(s: &str) -> (r: usize)
    ensures
        r as nat == grapheme_count(s@),
{
    unicode_segmentation::UnicodeSegmentation::graphemes(s, true).count()
}

/// Relies on `validator::validate_email`, which rejects an empty text and
/// one without an `@` before it looks any further.
#[verifier::external_body]
fn check_email(s: &str) -> (r: bool)
    ensures
        r == email_is_valid(s@),
        s@.len() == 0 ==> !r,
        !s@.contains('@') ==> !r,
{
    validator::validate_email(s)
}

/// Characters that a subscriber name may not hold.
pub open spec fn is_forbidden_name_char(c: char) -> bool {
    c == '/' || c == '(' || c == ')' || c == '"' || c == '<' || c == '>' || c == '\\'
        || c == '{' || c == '}'
}

pub open spec fn has_forbidden_name_char(s: Seq<char>) -> bool {
    exists|i: int| 0 <= i < s.len() && is_forbidden_name_char(#[trigger] s[i])
}

/// A name is accepted when it is not blank, has at most
/// `MAX_NAME_GRAPHEMES` grapheme clusters and no forbidden character.
pub open spec fn name_is_valid(s: Seq<char>, graphemes: nat) -> bool {
    !is_blank(s) && graphemes <= MAX_NAME_GRAPHEMES && !has_forbidden_name_char(s)
}

pub fn char_is_forbidden_in_name(c: char) -> (r: bool)
    ensures
        r == is_forbidden_name_char(c),
{
    c == '/' || c == '(' || c == ')' || c == '"' || c == '<' || c == '>' || c == '\\'
        || c == '{' || c == '}'
}

/// The name rules, given the grapheme count of `s`.
pub fn is_acceptable_name(s: &str, graphemes: usize) -> (r: bool)
    ensures
        r == name_is_valid(s@, graphemes as nat),
{
    if text_is_blank(s) || graphemes > MAX_NAME_GRAPHEMES {
        return false;
    }
    let n = s.unicode_len();
    let mut i: usize = 0;
    while i < n
        invariant
            n == s@.len(),
            i <= n,
            forall|j: int| 0 <= j < i ==> !is_forbidden_name_char(#[trigger] s@[j]),
        decreases n - i,
    {
        if char_is_forbidden_in_name(s.get_char(i)) {
            return false;
        }
        i = i + 1;
    }
    true
}

/// A subscriber's display name, checked by `parse`.
#[derive(Debug)]
pub struct SubscriberName(String);

impl View for SubscriberName {
    type V = Seq<char>;

    closed spec fn view(&self) -> Seq<char> {
        self.0@
    }
}

impl SubscriberName {
    /// Accepts a name that is not blank, has at most `MAX_NAME_GRAPHEMES`
    /// grapheme clusters and holds no forbidden character.
    pub fn parse(s: String) -> (r: Result<SubscriberName, String>)
        ensures
            match r {
                Ok(name) => name_is_valid(s@, grapheme_count(s@)) && name@ == s@,
                Err(msg) => !name_is_valid(s@, grapheme_count(s@)) && msg@ == s@
                    + " is not a valid subscriber name."@,
            },
    {
        let graphemes = count_graphemes(s.as_str());
        if is_acceptable_name(s.as_str(), graphemes) {
            Ok(SubscriberName(s))
        } else {
            Err(s.concat(" is not a valid subscriber name."))
        }
    }

    pub fn as_str(&self) -> (r: &str)
        ensures
            r@ == self@,
    {
        self.0.as_str()
    }
}

/// A subscriber's email address, checked by `parse`.
#[derive(Debug)]
pub struct SubscriberEmail(String);

impl View for SubscriberEmail {
    type V = Seq<char>;

    closed spec fn view(&self) -> Seq<char> {
        self.0@
    }
}

impl SubscriberEmail {
    /// Accepts an address that passes the email syntax check.
    pub fn parse(s: String) -> (r: Result<SubscriberEmail, String>)
        ensures
            match r {
                Ok(email) => email_is_valid(s@) && email@ == s@,
                Err(msg) => !email_is_valid(s@) && msg@ == s@ + " is not a valid subscriber email."@,
            },
    {
        if check_email(s.as_str()) {
            Ok(SubscriberEmail(s))
        } else {
            Err(s.concat(" is not a valid subscriber email."))
        }
    }

    pub fn as_str(&self) -> (r: &str)
        ensures
            r@ == self@,
    {
        self.0.as_str()
    }
}

} // verus!
