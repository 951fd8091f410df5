use crate::domain::{
    email_is_valid, grapheme_count, name_is_valid, SubscriberEmail, SubscriberName,
};
use crate::notice::{FlashLevel, FlashNotice};
use crate::text::push_char;
use vstd::prelude::*;
use vstd::string::StringExecFns;

verus! {

/// The sign-up form as submitted.
#[derive(Debug)]
pub struct FormData {
    pub email: String,
    pub name: String,
}

/// A subscriber whose email and name passed their checks.
#[derive(Debug)]
pub struct NewSubscriber {
    pub email: SubscriberEmail,
    pub name: SubscriberName,
}

impl NewSubscriber {
    /// Checks the email first, then the name; the first failure's message
    /// is the error.
    pub fn try_from(value: FormData) -> (r: Result<NewSubscriber, String>)
        ensures
            match r {
                Ok(s) => email_is_valid(value.email@) && name_is_valid(
                    value.name@,
                    grapheme_count(value.name@),
                ) && s.email@ == value.email@ && s.name@ == value.name@,
                Err(msg) => if !email_is_valid(value.email@) {
                    msg@ == value.email@ + " is not a valid subscriber email."@
                } else {
                    !name_is_valid(value.name@, grapheme_count(value.name@)) && msg@
                        == value.name@ + " is not a valid subscriber name."@
                },
            },
    {
        let email = match SubscriberEmail::parse(value.email) {
            Ok(e) => e,
            Err(msg) => {
                return Err(msg);
            },
        };
        let name = match SubscriberName::parse(value.name) {
            Ok(n) => n,
            Err(msg) => {
                return Err(msg);
            },
        };
        Ok(NewSubscriber { email, name })
    }
}

/// The public base URL of the application, used in links sent by email.
#[derive(Debug)]
pub struct ApplicationBaseUrl(pub String);

/// Length of a subscription token.
pub const TOKEN_LENGTH: usize = 25;

/// The characters a subscription token is drawn from: ASCII letters and
/// digits.
pub open spec fn is_token_char(c: char) -> bool {
    ('A' <= c && c <= 'Z') || ('a' <= c && c <= 'z') || ('0' <= c && c <= '9')
}

/// Relies on `rand::Rng::sample` with `rand::distributions::Alphanumeric`,
/// which draws one byte of `A-Z`, `a-z` or `0-9` from the thread's
/// generator.
#[verifier::external_body]
fn random_token_char() -> (r: char)
    ensures
        is_token_char(r),
{
    rand::Rng::sample(&mut rand::thread_rng(), rand::distributions::Alphanumeric) as char
}

/// A fresh random token of `TOKEN_LENGTH` letters and digits.
pub fn generate_subscription_token() -> (r: String)
    ensures
        r@.len() == TOKEN_LENGTH,
        forall|i: int| 0 <= i < r@.len() ==> is_token_char(#[trigger] r@[i]),
{
    let mut token = String::new();
    let mut i: usize = 0;
    while i < TOKEN_LENGTH
        invariant
            i <= TOKEN_LENGTH,
            token@.len() == i,
            forall|j: int| 0 <= j < token@.len() ==> is_token_char(#[trigger] token@[j]),
        decreases TOKEN_LENGTH - i,
    {
        let c = random_token_char();
        push_char(&mut token, c);
        i = i + 1;
    }
    token
}

pub open spec fn confirmation_link(base_url: Seq<char>, token: Seq<char>) -> Seq<char> {
    base_url + "/subscriptions/confirm?subscription_token="@ + token
}

/// The email that asks a new subscriber to confirm.
#[derive(Debug)]
pub struct ConfirmationEmail {
    pub subject: String,
    pub html_body: String,
    pub text_body: String,
}

pub fn confirmation_email(base_url: &str, subscription_token: &str) -> (r: ConfirmationEmail)
    ensures
        r.subject@ == "Welcome!"@,
        r.html_body@ == "Welcome to our newsletter!<br />\n        Click <a href=\""@
            + confirmation_link(base_url@, subscription_token@)
            + "\">here</a> to confirm your subscription."@,
        r.text_body@ == "Welcome to our newsletter!\nVisit "@ + confirmation_link(
            base_url@,
            subscription_token@,
        ) + " to confirm your subscription."@,
{
    let link = String::from_str(base_url).concat("/subscriptions/confirm?subscription_token=").concat(
        subscription_token,
    );
    let html_body = String::from_str(
        "Welcome to our newsletter!<br />\n        Click <a href=\"",
    ).concat(link.as_str()).concat("\">here</a> to confirm your subscription.");
    let text_body = String::from_str("Welcome to our newsletter!\nVisit ").concat(
        link.as_str(),
    ).concat(" to confirm your subscription.");
    ConfirmationEmail { subject: String::from_str("Welcome!"), html_body, text_body }
}

/// Why a sign-up could not be handled.
#[derive(Debug)]
pub enum SubscribeError {
    ValidationError(String),
    UnexpectedError(String),
}

impl SubscribeError {
    /// The HTTP status for the error: 400 for bad input, 500 otherwise.
    pub fn status_code(&self) -> (r: u16)
        ensures
            r == (match self {
                SubscribeError::ValidationError(_) => 400u16,
                SubscribeError::UnexpectedError(_) => 500u16,
            }),
    {
        match self {
            SubscribeError::ValidationError(_) => 400,
            SubscribeError::UnexpectedError(_) => 500,
        }
    }
}

/// "Caused by" lines, one per cause.
pub open spec fn causes_text(causes: Seq<Seq<char>>) -> Seq<char>
    decreases causes.len(),
{
    if causes.len() == 0 {
        Seq::empty()
    } else {
        causes_text(causes.drop_last()) + "Caused by:\n\t"@ + causes.last() + "\n"@
    }
}

/// An error and the chain of its causes, one per paragraph.
pub open spec fn error_chain_text(error: Seq<char>, causes: Seq<Seq<char>>) -> Seq<char> {
    error + "\n\n"@ + causes_text(causes)
}

/// Renders an error and its causes, outermost first.
pub fn error_chain_fmt(error: &str, causes: &Vec<String>) -> (r: String)
    ensures
        r@ == error_chain_text(error@, causes@.map_values(|c: String| c@)),
{
    let mut out = String::from_str(error).concat("\n\n");
    let ghost head = error@ + "\n\n"@;
    let mut i: usize = 0;
    while i < causes.len()
        invariant
            i <= causes@.len(),
            head == error@ + "\n\n"@,
            out@ == head + causes_text(causes@.take(i as int).map_values(|c: String| c@)),
        decreases causes@.len() - i,
    {
        let ghost prev = causes@.take(i as int).map_values(|c: String| c@);
        out.append("Caused by:\n\t");
        out.append(causes[i].as_str());
        out.append("\n");
        i = i + 1;
        proof {
            let next = causes@.take(i as int).map_values(|c: String| c@);
            assert(next.drop_last() =~= prev);
            assert(next.last() == causes@[i - 1]@);
            assert(out@ =~= head + causes_text(next));
        }
    }
    assert(causes@.take(causes@.len() as int) =~= causes@);
    out
}

/// How a sign-up went, as far as the user is told.
#[derive(Debug)]
pub enum SignupOutcome {
    /// The form did not pass validation; holds the reason.
    Invalid(String),
    /// The address is already subscribed.
    AlreadySubscribed,
    /// Stored, and the confirmation email went out.
    Subscribed,
    /// Stored, but the confirmation email could not be sent.
    ConfirmationNotSent,
}

/// The notice that tells the user how the sign-up went.
pub fn signup_notice(outcome: SignupOutcome) -> (r: FlashNotice)
    ensures
        match outcome {
            SignupOutcome::Invalid(reason) => r.level == FlashLevel::Error && r.message@ == reason@,
            SignupOutcome::AlreadySubscribed => r.level == FlashLevel::Error && r.message@
                == "It seems you're already subscribed!"@,
            SignupOutcome::Subscribed => r.level == FlashLevel::Info && r.message@
                == "You are now subscribed!"@,
            SignupOutcome::ConfirmationNotSent => r.level == FlashLevel::Error && r.message@
                == "Failed to send confirmation email, please check input fields."@,
        },
{
    match outcome {
        SignupOutcome::Invalid(reason) => FlashNotice { level: FlashLevel::Error, message: reason },
        SignupOutcome::AlreadySubscribed => FlashNotice {
            level: FlashLevel::Error,
            message: String::from_str("It seems you're already subscribed!"),
        },
        SignupOutcome::Subscribed => FlashNotice {
            level: FlashLevel::Info,
            message: String::from_str("You are now subscribed!"),
        },
        SignupOutcome::ConfirmationNotSent => FlashNotice {
            level: FlashLevel::Error,
            message: String::from_str(
                "Failed to send confirmation email, please check input fields.",
            ),
        },
    }
}

} // verus!
