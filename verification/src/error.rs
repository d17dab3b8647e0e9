//! Everything that can go wrong, and the words it is reported in.
use vstd::prelude::*;

use crate::foreign::{errno_text, errno_words, is_common_errno, quote, quoted};
use crate::ioctl::Request;
use crate::number::{decimal, decimal_text, hex, hex_text, NumberError};
use crate::number::{decimals_denote_their_numbers, padded_hex_denotes_its_number};
use crate::number::{numeral, weight};

verus! {

/// What went wrong. A `cause` is the operating system's own description of the failure.
#[derive(Debug)]
pub enum Error {
    /// The caller's user id is not that of root.
    NotRoot { uid: u32 },
    /// No watchdog is registered.
    NoWatchdog,
    /// No registered watchdog has the wanted identity.
    NoSuchIdentity { want: String },
    /// The driver lacks required option bits.
    OptionsMissing { what: String, required: u32, missing: u32, advertised: u32 },
    /// The awaited line did not come in time.
    DmesgTimeout { needle: String },
    /// The directory of the watchdogs cannot be listed.
    ListDir { cause: String },
    /// A sysfs attribute cannot be opened.
    OpenAttr { path: String, cause: String },
    /// A device cannot be opened.
    OpenDevice { path: String, cause: String },
    /// The device of a sysfs entry cannot be opened for a session.
    OpenNode { node: String, cause: String },
    /// The kernel log cannot be opened.
    OpenKmsg { cause: String },
    /// The kernel log cannot be read.
    ReadKmsg { cause: String },
    /// Some other operation of the system failed.
    Io { cause: String },
    /// The magic byte could not be written.
    WriteMagic { cause: String },
    /// The ping byte could not be written.
    WritePing { cause: String },
    /// The device refused a request.
    Ioctl { request: Request, errno: i32 },
    /// An attribute does not hold a number.
    Number { kind: NumberError },
}

/// An [`Error`] with its texts as character sequences.
#[verifier::ext_equal]
pub enum ErrorView {
    NotRoot { uid: u32 },
    NoWatchdog,
    NoSuchIdentity { want: Seq<char> },
    OptionsMissing { what: Seq<char>, required: u32, missing: u32, advertised: u32 },
    DmesgTimeout { needle: Seq<char> },
    ListDir { cause: Seq<char> },
    OpenAttr { path: Seq<char>, cause: Seq<char> },
    OpenDevice { path: Seq<char>, cause: Seq<char> },
    OpenNode { node: Seq<char>, cause: Seq<char> },
    OpenKmsg { cause: Seq<char> },
    ReadKmsg { cause: Seq<char> },
    Io { cause: Seq<char> },
    WriteMagic { cause: Seq<char> },
    WritePing { cause: Seq<char> },
    Ioctl { request: Request, errno: i32 },
    Number { kind: NumberError },
}

impl View for Error {
    type V = ErrorView;

    open spec fn view(&self) -> ErrorView {
        match *self {
            Error::NotRoot { uid } => ErrorView::NotRoot { uid },
            Error::NoWatchdog => ErrorView::NoWatchdog,
            Error::NoSuchIdentity { want } => ErrorView::NoSuchIdentity { want: want@ },
            Error::OptionsMissing { what, required, missing, advertised } =>
                ErrorView::OptionsMissing { what: what@, required, missing, advertised },
            Error::DmesgTimeout { needle } => ErrorView::DmesgTimeout { needle: needle@ },
            Error::ListDir { cause } => ErrorView::ListDir { cause: cause@ },
            Error::OpenAttr { path, cause } => ErrorView::OpenAttr { path: path@, cause: cause@ },
            Error::OpenDevice { path, cause } => ErrorView::OpenDevice {
                path: path@,
                cause: cause@,
            },
            Error::OpenNode { node, cause } => ErrorView::OpenNode { node: node@, cause: cause@ },
            Error::OpenKmsg { cause } => ErrorView::OpenKmsg { cause: cause@ },
            Error::ReadKmsg { cause } => ErrorView::ReadKmsg { cause: cause@ },
            Error::Io { cause } => ErrorView::Io { cause: cause@ },
            Error::WriteMagic { cause } => ErrorView::WriteMagic { cause: cause@ },
            Error::WritePing { cause } => ErrorView::WritePing { cause: cause@ },
            Error::Ioctl { request, errno } => ErrorView::Ioctl { request, errno },
            Error::Number { kind } => ErrorView::Number { kind },
        }
    }
}

/// The words for a text that is not a number.
pub open spec fn number_error_words(kind: NumberError) -> Seq<char> {
    match kind {
        NumberError::Empty => "cannot parse integer from empty string"@,
        NumberError::InvalidDigit => "invalid digit found in string"@,
        NumberError::Overflow => "number too large to fit in target type"@,
    }
}

impl ErrorView {
    /// The message that reports the error. `words` is what the message quotes: how the system
    /// describes the error number of a refused request, the `Debug` form of the identity that
    /// was wanted, or that of the text that was waited for. No other error quotes anything.
    pub open spec fn shown(self, words: Seq<char>) -> Seq<char> {
        match self {
            ErrorView::NotRoot { uid } => "test requires root (current uid = "@ + decimal(
                uid as nat,
            ) + "); skipping"@,
            ErrorView::NoWatchdog =>
                "no /sys/class/watchdog/watchdog* — is a watchdog driver loaded?"@,
            ErrorView::NoSuchIdentity { .. } => "no watchdog with identity "@ + words,
            ErrorView::OptionsMissing { what, required, missing, advertised } => what
                + ": required options bitmap 0x"@ + hex(required as nat, 8) + " missing 0x"@ + hex(
                missing as nat,
                8,
            ) + " (driver advertises 0x"@ + hex(advertised as nat, 8) + ")"@,
            ErrorView::DmesgTimeout { .. } => "dmesg never produced a line containing "@ + words,
            ErrorView::ListDir { .. } => "readdir /sys/class/watchdog"@,
            ErrorView::OpenAttr { path, .. } => "open "@ + path,
            ErrorView::OpenDevice { path, .. } => "open("@ + path + ")"@,
            ErrorView::OpenNode { node, .. } => "open "@ + node,
            ErrorView::OpenKmsg { .. } => "open /dev/kmsg (root needed)"@,
            ErrorView::ReadKmsg { cause } => "read kmsg: "@ + cause,
            ErrorView::Io { cause } => cause,
            ErrorView::WriteMagic { .. } => "write 'V'"@,
            ErrorView::WritePing { .. } => "write byte ping"@,
            ErrorView::Ioctl { request, .. } => if request == Request::GetSupport {
                "WDIOC_GETSUPPORT: "@ + words
            } else {
                words
            },
            ErrorView::Number { kind } => number_error_words(kind),
        }
    }

    /// The text of the error that its message quotes in `Debug` form, if it has one.
    pub open spec fn quotes(self) -> Option<Seq<char>> {
        match self {
            ErrorView::NoSuchIdentity { want } => Some(want),
            ErrorView::DmesgTimeout { needle } => Some(needle),
            _ => None,
        }
    }

    /// The messages of what led to the error, the nearest first. Opening the device is a step of
    /// its own where it fails at the beginning of a session. A cause that the message itself
    /// gives does not come again.
    pub open spec fn causes(self) -> Seq<Seq<char>> {
        match self {
            ErrorView::ListDir { cause } => seq![cause],
            ErrorView::OpenAttr { cause, .. } => seq![cause],
            ErrorView::OpenDevice { cause, .. } => seq![cause],
            ErrorView::OpenNode { node, cause } => seq!["open("@ + node + ")"@, cause],
            ErrorView::OpenKmsg { cause } => seq![cause],
            ErrorView::WriteMagic { cause } => seq![cause],
            ErrorView::WritePing { cause } => seq![cause],
            _ => Seq::empty(),
        }
    }
}

/// The cause of a session that cannot begin is the failure to open the device, with that
/// failure's own message and causes.
pub proof fn session_fails_because_the_device_does_not_open(
    node: Seq<char>,
    cause: Seq<char>,
    words: Seq<char>,
)
    ensures
        ({
            let step = ErrorView::OpenDevice { path: node, cause };
            (ErrorView::OpenNode { node, cause }).causes() == seq![step.shown(words)]
                + step.causes()
        }),
{
    let step = ErrorView::OpenDevice { path: node, cause };
    assert((ErrorView::OpenNode { node, cause }).causes() =~= seq![step.shown(words)]
        + step.causes());
}

fn join2(a: &str, b: &str) -> (r: String)
    ensures
        r@ == a@ + b@,
{
    let mut out: String = a.to_owned();
    out.append(b);
    out
}

impl Error {
    /// The message that reports the error, where `words` is what it quotes: how the system
    /// describes the error number of a refused request, the `Debug` form of the identity that
    /// was wanted, or that of the text that was waited for.
    pub fn message_with(&self, words: &str) -> (r: String)
        ensures
            r@ == self@.shown(words@),
    {
        match self {
            Error::NotRoot { uid } => {
                let mut out: String = join2(
                    "test requires root (current uid = ",
                    decimal_text(*uid).as_str(),
                );
                out.append("); skipping");
                out
            },
            Error::NoWatchdog =>
                "no /sys/class/watchdog/watchdog* — is a watchdog driver loaded?".to_owned(),
            Error::NoSuchIdentity { .. } => join2("no watchdog with identity ", words),
            Error::OptionsMissing { what, required, missing, advertised } => {
                let mut out: String = join2(what.as_str(), ": required options bitmap 0x");
                out.append(hex_text(*required, 8).as_str());
                out.append(" missing 0x");
                out.append(hex_text(*missing, 8).as_str());
                out.append(" (driver advertises 0x");
                out.append(hex_text(*advertised, 8).as_str());
                out.append(")");
                out
            },
            Error::DmesgTimeout { .. } => join2("dmesg never produced a line containing ", words),
            Error::ListDir { .. } => "readdir /sys/class/watchdog".to_owned(),
            Error::OpenAttr { path, .. } => join2("open ", path.as_str()),
            Error::OpenDevice { path, .. } => {
                let mut out: String = join2("open(", path.as_str());
                out.append(")");
                out
            },
            Error::OpenNode { node, .. } => join2("open ", node.as_str()),
            Error::OpenKmsg { .. } => "open /dev/kmsg (root needed)".to_owned(),
            Error::ReadKmsg { cause } => join2("read kmsg: ", cause.as_str()),
            Error::Io { cause } => cause.clone(),
            Error::WriteMagic { .. } => "write 'V'".to_owned(),
            Error::WritePing { .. } => "write byte ping".to_owned(),
            Error::Ioctl { request, .. } => match request {
                Request::GetSupport => join2("WDIOC_GETSUPPORT: ", words),
                _ => words.to_owned(),
            },
            Error::Number { kind } => match kind {
                NumberError::Empty => "cannot parse integer from empty string".to_owned(),
                NumberError::InvalidDigit => "invalid digit found in string".to_owned(),
                NumberError::Overflow => "number too large to fit in target type".to_owned(),
            },
        }
    }

    /// The message that reports the error. The words for the error number of a refused request
    /// are those of the target's own error table; for the numbers that all Linux targets share
    /// they are [`errno_words`].
    pub fn message(&self) -> (r: String)
        ensures
            !(self is Ioctl) ==> r@ == self@.shown(
                match self@.quotes() {
                    Some(text) => quoted(text),
                    None => Seq::empty(),
                },
            ),
            self@ matches ErrorView::Ioctl { errno, .. } ==> exists|words: Seq<char>|
                {
                    &&& r@ == #[trigger] self@.shown(words)
                    &&& is_common_errno(errno) ==> words == errno_words(errno)
                },
    {
        match self {
            Error::Ioctl { errno, .. } => {
                let words: String = errno_text(*errno);
                self.message_with(words.as_str())
            },
            Error::NoSuchIdentity { want } => self.message_with(quote(want.as_str()).as_str()),
            Error::DmesgTimeout { needle } => self.message_with(quote(needle.as_str()).as_str()),
            _ => {
                proof {
                    reveal_strlit("");
                    assert(""@ =~= Seq::<char>::empty());
                }
                self.message_with("")
            },
        }
    }

    /// The messages of what led to the error, the nearest first.
    pub fn causes(&self) -> (r: Vec<String>)
        ensures
            r@.map_values(|s: String| s@) == self@.causes(),
    {
        let mut out: Vec<String> = Vec::new();
        match self {
            Error::OpenNode { node, cause } => {
                let mut step: String = join2("open(", node.as_str());
                step.append(")");
                out.push(step);
                out.push(cause.clone());
            },
            Error::ListDir { cause } => out.push(cause.clone()),
            Error::OpenAttr { cause, .. } => out.push(cause.clone()),
            Error::OpenDevice { cause, .. } => out.push(cause.clone()),
            Error::OpenKmsg { cause } => out.push(cause.clone()),
            Error::WriteMagic { cause } => out.push(cause.clone()),
            Error::WritePing { cause } => out.push(cause.clone()),
            _ => {},
        }
        assert(out@.map_values(|s: String| s@) =~= self@.causes());
        out
    }
}

/// A message says what went wrong and with what: numbers in decimal or, for option bits, in
/// hexadecimal with eight digits; texts and paths as they are.
pub proof fn messages_carry_their_values(
    uid: u32,
    text: Seq<char>,
    cause: Seq<char>,
    words: Seq<char>,
    required: u32,
    missing: u32,
    advertised: u32,
) -> (r: (Seq<char>, Seq<char>, Seq<char>, Seq<char>))
    ensures
        (ErrorView::NotRoot { uid }).shown(words) == "test requires root (current uid = "@ + r.0
            + "); skipping"@,
        weight(r.0, 10) == uid,
        r.0.len() > 0,
        r.0[0] == '0' ==> r.0.len() == 1,
        (ErrorView::OptionsMissing { what: text, required, missing, advertised }).shown(words)
            == text + ": required options bitmap 0x"@ + r.1 + " missing 0x"@ + r.2
            + " (driver advertises 0x"@ + r.3 + ")"@,
        weight(r.1, 16) == required && r.1.len() == 8,
        weight(r.2, 16) == missing && r.2.len() == 8,
        weight(r.3, 16) == advertised && r.3.len() == 8,
        (ErrorView::NoSuchIdentity { want: text }).shown(words) == "no watchdog with identity "@
            + words,
        (ErrorView::DmesgTimeout { needle: text }).shown(words)
            == "dmesg never produced a line containing "@ + words,
        (ErrorView::OpenAttr { path: text, cause }).shown(words) == "open "@ + text,
        (ErrorView::OpenDevice { path: text, cause }).shown(words) == "open("@ + text + ")"@,
        (ErrorView::OpenNode { node: text, cause }).shown(words) == "open "@ + text,
        (ErrorView::ReadKmsg { cause }).shown(words) == "read kmsg: "@ + cause,
        (ErrorView::Io { cause }).shown(words) == cause,
        (ErrorView::ListDir { cause }).shown(words) == "readdir /sys/class/watchdog"@,
        (ErrorView::OpenKmsg { cause }).shown(words) == "open /dev/kmsg (root needed)"@,
        (ErrorView::WriteMagic { cause }).shown(words) == "write 'V'"@,
        (ErrorView::WritePing { cause }).shown(words) == "write byte ping"@,
        (ErrorView::NoSuchIdentity { want: text }).quotes() == Some(text),
        (ErrorView::DmesgTimeout { needle: text }).quotes() == Some(text),
{
    decimals_denote_their_numbers(uid as nat);
    eight_digits(required);
    eight_digits(missing);
    eight_digits(advertised);
    (
        decimal(uid as nat),
        hex(required as nat, 8),
        hex(missing as nat, 8),
        hex(advertised as nat, 8),
    )
}

proof fn eight_digits(n: u32)
    ensures
        weight(hex(n as nat, 8), 16) == n,
        hex(n as nat, 8).len() == 8,
{
    padded_hex_denotes_its_number(n as nat, 8);
    reveal_with_fuel(numeral, 9);
    assert(numeral(n as nat, 16).len() <= 8);
}

/// A refused request is reported in the words that are given for its error number, and a refused
/// request for the info says that it was one. What is said does not depend on the number.
pub proof fn refusals_are_told_in_the_given_words(request: Request, errno: i32, words: Seq<char>)
    ensures
        request != Request::GetSupport ==> (ErrorView::Ioctl { request, errno }).shown(words)
            == words,
        request == Request::GetSupport ==> (ErrorView::Ioctl { request, errno }).shown(words)
            == "WDIOC_GETSUPPORT: "@ + words,
{
}

/// The system's own description of a failure ends the causes of the error, unless the message
/// gives it.
pub proof fn the_system_s_cause_is_kept(text: Seq<char>, cause: Seq<char>)
    ensures
        (ErrorView::ListDir { cause }).causes() == seq![cause],
        (ErrorView::OpenAttr { path: text, cause }).causes() == seq![cause],
        (ErrorView::OpenDevice { path: text, cause }).causes() == seq![cause],
        (ErrorView::OpenKmsg { cause }).causes() == seq![cause],
        (ErrorView::WriteMagic { cause }).causes() == seq![cause],
        (ErrorView::WritePing { cause }).causes() == seq![cause],
        (ErrorView::OpenNode { node: text, cause }).causes() == seq!["open("@ + text + ")"@, cause],
        (ErrorView::ReadKmsg { cause }).causes().len() == 0,
        (ErrorView::Io { cause }).causes().len() == 0,
{
}

} // verus!
