//! A log writer that carries each chunk of log output to a channel, so the
//! in-app console can show it.

use vstd::prelude::*;

verus! {

#[verifier::external_type_specification]
#[verifier::external_body]
#[verifier::reject_recursive_types(T)]
pub struct ExSender<T>(std::sync::mpsc::Sender<T>);

/// What a byte sequence decodes to as UTF-8 text, if it is valid UTF-8.
pub uninterp spec fn utf8_decoded(bytes: Seq<u8>) -> Option<Seq<char>>;

/// Relies on `String::from_utf8`: it succeeds exactly when the bytes are
/// valid UTF-8, and the decoded text is a function of the bytes alone.
#[verifier::external_body]
fn decode_utf8(bytes: &[u8]) -> (r: Option<String>)
    ensures
        r is Some <==> utf8_decoded(bytes@) is Some,
        r matches Some(s) ==> Some(s@) == utf8_decoded(bytes@),
{
    match String::from_utf8(bytes.to_vec()) {
        Ok(s) => Some(s),
        Err(_) => None,
    }
}

/// Relies on `std::sync::mpsc::Sender::send`.  Whether the message arrives
/// depends on the receiver's state, so nothing is promised of the outcome;
/// the logging path ignores it, since the receiver may be gone at exit.
#[verifier::external_body]
fn send_text(sender: &std::sync::mpsc::Sender<String>, message: String) {
    let _ = sender.send(message);
}

/// Sends each written chunk of log output through a channel as one message.
pub struct ChannelWriter {
    sender: std::sync::mpsc::Sender<String>,
}

impl ChannelWriter {
    /// A writer over the sending half of a channel.
    pub fn new(sender: std::sync::mpsc::Sender<String>) -> (w: ChannelWriter) {
        ChannelWriter { sender }
    }

    /// Decodes `buf` and sends the text as one message.  Reports the whole
    /// chunk as written exactly when the bytes are valid UTF-8; invalid
    /// bytes send nothing and report nothing written.
    pub fn write(&mut self, buf: &[u8]) -> (r: Option<usize>)
        ensures
            r is Some <==> utf8_decoded(buf@) is Some,
            r matches Some(n) ==> n == buf@.len(),
    {
        match decode_utf8(buf) {
            Some(s) => {
                send_text(&self.sender, s);
                Some(buf.len())
            },
            None => None,
        }
    }
}

} // verus!
