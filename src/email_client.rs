use crate::domain::SubscriberEmail;
use vstd::prelude::*;
use vstd::string::StringExecFns;

verus! {

/// The fields of one send request to the mail provider.
#[derive(Debug)]
pub struct EmailRequest {
    pub from: String,
    pub to: String,
    pub subject: String,
    pub html_body: String,
    pub text_body: String,
    pub message_stream: String,
}

/// The provider's endpoint for sending one email.
pub fn email_endpoint(base_url: &str) -> (r: String)
    ensures
        r@ == base_url@ + "/email"@,
{
    String::from_str(base_url).concat("/email")
}

/// The request that sends one email from `sender` to `recipient` on the
/// outbound stream.
pub fn email_request(
    sender: &SubscriberEmail,
    recipient: &SubscriberEmail,
    subject: &str,
    html_content: &str,
    text_content: &str,
) -> (r: EmailRequest)
    ensures
        r.from@ == sender@,
        r.to@ == recipient@,
        r.subject@ == subject@,
        r.html_body@ == html_content@,
        r.text_body@ == text_content@,
        r.message_stream@ == "outbound"@,
{
    EmailRequest {
        from: String::from_str(sender.as_str()),
        to: String::from_str(recipient.as_str()),
        subject: String::from_str(subject),
        html_body: String::from_str(html_content),
        text_body: String::from_str(text_content),
        message_stream: String::from_str("outbound"),
    }
}

} // verus!
