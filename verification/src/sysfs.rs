//! A watchdog of the system: its directory in sysfs, and what the attributes there say.
use vstd::prelude::*;

use crate::error::{Error, ErrorView};
use crate::number::{decimal, decimal_text, parse_u32, parsed_u32};
use crate::number::{decimals_denote_their_numbers, is_digit, reading_undoes_writing};
use crate::text::{chars_of, is_space, same_text, space_around_a_text_is_taken, trim, trimmed};

verus! {

/// A watchdog of the system: its number, and its directory in sysfs.
#[derive(Clone, Debug)]
pub struct WatchdogSysfs {
    pub index: u32,
    pub sysfs: String,
}

/// A [`WatchdogSysfs`] with its directory as a character sequence.
#[verifier::ext_equal]
pub struct EntryView {
    pub index: u32,
    pub sysfs: Seq<char>,
}

impl View for WatchdogSysfs {
    type V = EntryView;

    open spec fn view(&self) -> EntryView {
        EntryView { index: self.index, sysfs: self.sysfs@ }
    }
}

/// How reading an attribute file ended.
#[derive(Debug)]
pub enum AttrRead {
    /// The file could not be opened.
    OpenFailed { cause: String },
    /// The file was opened, but its text could not be read.
    ReadFailed { cause: String },
    /// The whole text of the file.
    Content { text: String },
}

/// The path `name` as seen from the directory `dir`. A slash goes between them, unless `dir`
/// ends with one or is empty; a `name` that begins with a slash stands alone.
pub open spec fn joined(dir: Seq<char>, name: Seq<char>) -> Seq<char> {
    if name.len() > 0 && name[0] == '/' {
        name
    } else if dir.len() == 0 || dir.last() == '/' {
        dir + name
    } else {
        dir.push('/') + name
    }
}

/// The path `name` as seen from the directory `dir`.
fn join_path(dir: &str, name: &str) -> (r: String)
    ensures
        r@ == joined(dir@, name@),
{
    let tail: Vec<char> = chars_of(name);
    if tail.len() > 0 && tail[0] == '/' {
        return name.to_owned();
    }
    let chars: Vec<char> = chars_of(dir);
    let mut out: String = dir.to_owned();
    if chars.len() > 0 && chars[chars.len() - 1] != '/' {
        proof {
            reveal_strlit("/");
        }
        out.append("/");
        assert(out@ =~= dir@.push('/'));
    }
    out.append(name);
    out
}

/// The text that reading an attribute at `path` gives: the content of the file without the
/// whitespace around it.
pub open spec fn attr_text(path: Seq<char>, read: AttrRead) -> Result<Seq<char>, ErrorView> {
    match read {
        AttrRead::OpenFailed { cause } => Err(ErrorView::OpenAttr { path, cause: cause@ }),
        AttrRead::ReadFailed { cause } => Err(ErrorView::Io { cause: cause@ }),
        AttrRead::Content { text } => Ok(trimmed(text@)),
    }
}

/// The number that reading an attribute at `path` gives.
pub open spec fn attr_number(path: Seq<char>, read: AttrRead) -> Result<u32, ErrorView> {
    match attr_text(path, read) {
        Ok(text) => match parsed_u32(text) {
            Ok(n) => Ok(n),
            Err(kind) => Err(ErrorView::Number { kind }),
        },
        Err(e) => Err(e),
    }
}

/// A result that carries text, with both its sides as the specifications see them.
pub open spec fn text_outcome(r: Result<String, Error>) -> Result<Seq<char>, ErrorView> {
    match r {
        Ok(s) => Ok(s@),
        Err(e) => Err(e@),
    }
}

/// A result that carries a plain value, with its error as the specifications see it.
pub open spec fn outcome<T>(r: Result<T, Error>) -> Result<T, ErrorView> {
    match r {
        Ok(v) => Ok(v),
        Err(e) => Err(e@),
    }
}

/// The content of an attribute without the whitespace around it.
pub fn read_trim(path: String, read: &AttrRead) -> (r: Result<String, Error>)
    ensures
        text_outcome(r) == attr_text(path@, *read),
{
    match read {
        AttrRead::OpenFailed { cause } => Err(Error::OpenAttr { path, cause: cause.clone() }),
        AttrRead::ReadFailed { cause } => Err(Error::Io { cause: cause.clone() }),
        AttrRead::Content { text } => Ok(trim(text.as_str())),
    }
}

fn read_number(path: String, read: &AttrRead) -> (r: Result<u32, Error>)
    ensures
        outcome(r) == attr_number(path@, *read),
{
    match read_trim(path, read) {
        Ok(text) => match parse_u32(text.as_str()) {
            Ok(n) => Ok(n),
            Err(kind) => Err(Error::Number { kind }),
        },
        Err(e) => Err(e),
    }
}

impl EntryView {
    /// Where the attribute `name` is.
    pub open spec fn attr(self, name: Seq<char>) -> Seq<char> {
        joined(self.sysfs, name)
    }

    /// The device node.
    pub open spec fn node(self) -> Seq<char> {
        "/dev/watchdog"@ + decimal(self.index as nat)
    }
}

impl WatchdogSysfs {
    /// The path of the attribute `name`.
    pub fn attr_path(&self, name: &str) -> (r: String)
        ensures
            r@ == self@.attr(name@),
    {
        join_path(self.sysfs.as_str(), name)
    }

    /// The path of the device node.
    pub fn dev_node(&self) -> (r: String)
        ensures
            r@ == self@.node(),
    {
        let mut out: String = "/dev/watchdog".to_owned();
        out.append(decimal_text(self.index).as_str());
        out
    }

    /// The identity, from what reading the attribute `identity` gave.
    pub fn identity(&self, read: &AttrRead) -> (r: Result<String, Error>)
        ensures
            text_outcome(r) == attr_text(self@.attr("identity"@), *read),
    {
        read_trim(self.attr_path("identity"), read)
    }

    /// The timeout in seconds, from what reading the attribute `timeout` gave.
    pub fn timeout(&self, read: &AttrRead) -> (r: Result<u32, Error>)
        ensures
            outcome(r) == attr_number(self@.attr("timeout"@), *read),
    {
        read_number(self.attr_path("timeout"), read)
    }

    /// The pretimeout in seconds, from what reading the attribute `pretimeout` gave.
    pub fn pretimeout(&self, read: &AttrRead) -> (r: Result<u32, Error>)
        ensures
            outcome(r) == attr_number(self@.attr("pretimeout"@), *read),
    {
        read_number(self.attr_path("pretimeout"), read)
    }

    /// Whether the watchdog cannot be stopped, from what reading the attribute `nowayout` gave.
    pub fn nowayout(&self, read: &AttrRead) -> (r: Result<bool, Error>)
        ensures
            outcome(r) == (match attr_text(self@.attr("nowayout"@), *read) {
                Ok(text) => Ok(text == "1"@),
                Err(e) => Err(e),
            }),
    {
        match read_trim(self.attr_path("nowayout"), read) {
            Ok(text) => Ok(same_text(text.as_str(), "1")),
            Err(e) => Err(e),
        }
    }

    /// The state, from what reading the attribute `state` gave.
    pub fn state(&self, read: &AttrRead) -> (r: Result<String, Error>)
        ensures
            text_outcome(r) == attr_text(self@.attr("state"@), *read),
    {
        read_trim(self.attr_path("state"), read)
    }

    /// The status bits of the last boot, from what reading the attribute `bootstatus` gave.
    pub fn bootstatus(&self, read: &AttrRead) -> (r: Result<u32, Error>)
        ensures
            outcome(r) == attr_number(self@.attr("bootstatus"@), *read),
    {
        read_number(self.attr_path("bootstatus"), read)
    }
}

/// An attribute is a file of the directory of its watchdog.
pub proof fn an_attribute_is_a_file_of_the_entry(sys: EntryView, name: Seq<char>)
    ensures
        name.len() > 0 && name[0] == '/' ==> sys.attr(name) == name,
        !(name.len() > 0 && name[0] == '/') && (sys.sysfs.len() == 0 || sys.sysfs.last() == '/')
            ==> sys.attr(name) == sys.sysfs + name,
        !(name.len() > 0 && name[0] == '/') && sys.sysfs.len() > 0 && sys.sysfs.last() != '/'
            ==> sys.attr(name) == sys.sysfs + seq!['/'] + name,
{
    assert(sys.sysfs.push('/') + name =~= sys.sysfs + seq!['/'] + name);
}

/// The text of an attribute is the content of its file without the whitespace around it,
/// wherever the file is and whatever the whitespace.
pub proof fn an_attribute_gives_its_text(
    path: Seq<char>,
    file: String,
    before: Seq<char>,
    text: Seq<char>,
    after: Seq<char>,
)
    requires
        file@ == before + text + after,
        text.len() > 0 ==> !is_space(text[0]) && !is_space(text.last()),
        forall|i: int| 0 <= i < before.len() ==> is_space(#[trigger] before[i]),
        forall|i: int| 0 <= i < after.len() ==> is_space(#[trigger] after[i]),
    ensures
        attr_text(path, AttrRead::Content { text: file }) == Ok::<Seq<char>, ErrorView>(text),
{
    space_around_a_text_is_taken(before, text, after);
}

/// Every number that an attribute can hold is read back from it, whatever whitespace stands
/// around it.
pub proof fn an_attribute_gives_its_number(
    path: Seq<char>,
    file: String,
    before: Seq<char>,
    n: u32,
    after: Seq<char>,
)
    requires
        file@ == before + decimal(n as nat) + after,
        forall|i: int| 0 <= i < before.len() ==> is_space(#[trigger] before[i]),
        forall|i: int| 0 <= i < after.len() ==> is_space(#[trigger] after[i]),
    ensures
        attr_number(path, AttrRead::Content { text: file }) == Ok::<u32, ErrorView>(n),
{
    decimals_denote_their_numbers(n as nat);
    let text = decimal(n as nat);
    assert(is_digit(text[0]) && is_digit(text[text.len() - 1]));
    an_attribute_gives_its_text(path, file, before, text, after);
    reading_undoes_writing(n);
}

/// An attribute has a number exactly if its trimmed content is one; otherwise the failure says
/// why it is none.
pub proof fn an_attribute_without_a_number_is_refused(path: Seq<char>, file: String)
    ensures
        match parsed_u32(trimmed(file@)) {
            Ok(n) => attr_number(path, AttrRead::Content { text: file }) == Ok::<u32, ErrorView>(n),
            Err(kind) => attr_number(path, AttrRead::Content { text: file }) == Err::<
                u32,
                ErrorView,
            >(ErrorView::Number { kind }),
        },
{
}

/// An attribute that cannot be read has neither a text nor a number. Where its file did not
/// open, the failure names the file.
pub proof fn an_unreadable_attribute_is_a_failure(path: Seq<char>, cause: String)
    ensures
        attr_text(path, AttrRead::OpenFailed { cause }) == Err::<Seq<char>, ErrorView>(
            ErrorView::OpenAttr { path, cause: cause@ },
        ),
        attr_number(path, AttrRead::OpenFailed { cause }) == Err::<u32, ErrorView>(
            ErrorView::OpenAttr { path, cause: cause@ },
        ),
        attr_text(path, AttrRead::ReadFailed { cause }) == Err::<Seq<char>, ErrorView>(
            ErrorView::Io { cause: cause@ },
        ),
        attr_number(path, AttrRead::ReadFailed { cause }) == Err::<u32, ErrorView>(
            ErrorView::Io { cause: cause@ },
        ),
{
}

/// The specifications see of a result what it carries.
pub proof fn every_result_is_seen<T>(value: T, text: String, error: Error)
    ensures
        outcome(Ok::<T, Error>(value)) == Ok::<T, ErrorView>(value),
        outcome(Err::<T, Error>(error)) == Err::<T, ErrorView>(error@),
        text_outcome(Ok(text)) == Ok::<Seq<char>, ErrorView>(text@),
        text_outcome(Err(error)) == Err::<Seq<char>, ErrorView>(error@),
{
}

} // verus!
