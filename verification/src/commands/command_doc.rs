//! What the server tells of the documentation of its commands.

use vstd::prelude::*;
use crate::commands::server_commands::{require, required, text_field, read_text};
use crate::error::{Error, ErrorView, ParseTarget};
use crate::resp::command::byte_strings;
use crate::resp::from_value::{
    collect, entries_of, entry_views, field, items_of, lemma_collect_error, lemma_collect_step,
    lookup, text_of, texts_of, to_entries, to_items, to_text, to_texts, to_usize, usize_of,
};
use crate::resp::text::{bytes_of, text_eq};
use crate::resp::value::{views, Value, ValueView};

verus! {

/// A flag of the documentation of a command.
#[derive(Clone, Copy, Debug, PartialEq, Eq, Structural)]
pub enum CommandDocFlag {
    /// The command is deprecated.
    Deprecated,
    /// The command is not meant to be called by users.
    SystemCommand,
}

/// The type of an argument of a command.
#[derive(Clone, Copy, Debug, PartialEq, Eq, Structural)]
pub enum CommandArgumentType {
    String,
    Integer,
    Double,
    Key,
    Pattern,
    UnixTime,
    PureToken,
    OneOf,
    Block,
}

/// A flag of an argument of a command.
#[derive(Clone, Copy, Debug, PartialEq, Eq, Structural)]
pub enum ArgumentFlag {
    Optional,
    Multiple,
    MultipleToken,
}

/// The documentation flag with the given name.
pub open spec fn doc_flag_named(name: Seq<u8>) -> Option<CommandDocFlag> {
    if name == bytes_of("deprecated") {
        Some(CommandDocFlag::Deprecated)
    } else if name == bytes_of("syscmd") {
        Some(CommandDocFlag::SystemCommand)
    } else {
        None
    }
}

/// The argument type with the given name.
pub open spec fn argument_type_named(name: Seq<u8>) -> Option<CommandArgumentType> {
    if name == bytes_of("string") {
        Some(CommandArgumentType::String)
    } else if name == bytes_of("integer") {
        Some(CommandArgumentType::Integer)
    } else if name == bytes_of("double") {
        Some(CommandArgumentType::Double)
    } else if name == bytes_of("key") {
        Some(CommandArgumentType::Key)
    } else if name == bytes_of("pattern") {
        Some(CommandArgumentType::Pattern)
    } else if name == bytes_of("unix-time") {
        Some(CommandArgumentType::UnixTime)
    } else if name == bytes_of("pure-token") {
        Some(CommandArgumentType::PureToken)
    } else if name == bytes_of("oneof") {
        Some(CommandArgumentType::OneOf)
    } else if name == bytes_of("block") {
        Some(CommandArgumentType::Block)
    } else {
        None
    }
}

/// The argument flag with the given name.
pub open spec fn argument_flag_named(name: Seq<u8>) -> Option<ArgumentFlag> {
    if name == bytes_of("optional") {
        Some(ArgumentFlag::Optional)
    } else if name == bytes_of("multiple") {
        Some(ArgumentFlag::Multiple)
    } else if name == bytes_of("multiple-token") {
        Some(ArgumentFlag::MultipleToken)
    } else {
        None
    }
}

/// The documentation flag that a reply stands for.
pub open spec fn doc_flag_of(v: ValueView) -> Result<CommandDocFlag, ErrorView> {
    match text_of(v) {
        Err(e) => Err(e),
        Ok(name) => match doc_flag_named(name) {
            Some(f) => Ok(f),
            None => Err(ErrorView::Parse(ParseTarget::CommandDocFlag)),
        },
    }
}

/// The argument type that a reply stands for.
pub open spec fn argument_type_of(v: ValueView) -> Result<CommandArgumentType, ErrorView> {
    match text_of(v) {
        Err(e) => Err(e),
        Ok(name) => match argument_type_named(name) {
            Some(t) => Ok(t),
            None => Err(ErrorView::Parse(ParseTarget::CommandArgumentType)),
        },
    }
}

/// The argument flag that a reply stands for.
pub open spec fn argument_flag_of(v: ValueView) -> Result<ArgumentFlag, ErrorView> {
    match text_of(v) {
        Err(e) => Err(e),
        Ok(name) => match argument_flag_named(name) {
            Some(f) => Ok(f),
            None => Err(ErrorView::Parse(ParseTarget::ArgumentFlag)),
        },
    }
}

impl CommandDocFlag {
    /// Reads a documentation flag from a reply.
    pub fn from_value(value: Value) -> (r: Result<CommandDocFlag, Error>)
        ensures
            match doc_flag_of(value@) {
                Ok(f) => r matches Ok(found) && found == f,
                Err(e) => r matches Err(g) && g@ == e,
            },
    {
        CommandDocFlag::read(&value)
    }

    /// Reads a documentation flag from a reply.
    pub fn read(value: &Value) -> (r: Result<CommandDocFlag, Error>)
        ensures
            match doc_flag_of(value@) {
                Ok(f) => r matches Ok(found) && found == f,
                Err(e) => r matches Err(g) && g@ == e,
            },
    {
        let f = match to_text(value) {
            Ok(f) => f,
            Err(e) => {
                return Err(e);
            },
        };
        if text_eq(f.as_slice(), "deprecated") {
            Ok(CommandDocFlag::Deprecated)
        } else if text_eq(f.as_slice(), "syscmd") {
            Ok(CommandDocFlag::SystemCommand)
        } else {
            Err(Error::Parse(ParseTarget::CommandDocFlag))
        }
    }
}

impl CommandArgumentType {
    /// Reads an argument type from a reply.
    pub fn from_value(value: Value) -> (r: Result<CommandArgumentType, Error>)
        ensures
            match argument_type_of(value@) {
                Ok(t) => r matches Ok(found) && found == t,
                Err(e) => r matches Err(g) && g@ == e,
            },
    {
        CommandArgumentType::read(&value)
    }

    /// Reads an argument type from a reply.
    pub fn read(value: &Value) -> (r: Result<CommandArgumentType, Error>)
        ensures
            match argument_type_of(value@) {
                Ok(t) => r matches Ok(found) && found == t,
                Err(e) => r matches Err(g) && g@ == e,
            },
    {
        let t = match to_text(value) {
            Ok(t) => t,
            Err(e) => {
                return Err(e);
            },
        };
        let name = t.as_slice();
        if text_eq(name, "string") {
            Ok(CommandArgumentType::String)
        } else if text_eq(name, "integer") {
            Ok(CommandArgumentType::Integer)
        } else if text_eq(name, "double") {
            Ok(CommandArgumentType::Double)
        } else if text_eq(name, "key") {
            Ok(CommandArgumentType::Key)
        } else if text_eq(name, "pattern") {
            Ok(CommandArgumentType::Pattern)
        } else if text_eq(name, "unix-time") {
            Ok(CommandArgumentType::UnixTime)
        } else if text_eq(name, "pure-token") {
            Ok(CommandArgumentType::PureToken)
        } else if text_eq(name, "oneof") {
            Ok(CommandArgumentType::OneOf)
        } else if text_eq(name, "block") {
            Ok(CommandArgumentType::Block)
        } else {
            Err(Error::Parse(ParseTarget::CommandArgumentType))
        }
    }
}

impl ArgumentFlag {
    /// Reads an argument flag from a reply.
    pub fn from_value(value: Value) -> (r: Result<ArgumentFlag, Error>)
        ensures
            match argument_flag_of(value@) {
                Ok(f) => r matches Ok(found) && found == f,
                Err(e) => r matches Err(g) && g@ == e,
            },
    {
        ArgumentFlag::read(&value)
    }

    /// Reads an argument flag from a reply.
    pub fn read(value: &Value) -> (r: Result<ArgumentFlag, Error>)
        ensures
            match argument_flag_of(value@) {
                Ok(f) => r matches Ok(found) && found == f,
                Err(e) => r matches Err(g) && g@ == e,
            },
    {
        let f = match to_text(value) {
            Ok(f) => f,
            Err(e) => {
                return Err(e);
            },
        };
        if text_eq(f.as_slice(), "optional") {
            Ok(ArgumentFlag::Optional)
        } else if text_eq(f.as_slice(), "multiple") {
            Ok(ArgumentFlag::Multiple)
        } else if text_eq(f.as_slice(), "multiple-token") {
            Ok(ArgumentFlag::MultipleToken)
        } else {
            Err(Error::Parse(ParseTarget::ArgumentFlag))
        }
    }
}

/// A note on how a command changed with a version of the server.
#[derive(Debug, PartialEq, Eq)]
pub struct HistoricalNote {
    pub version: Vec<u8>,
    pub description: Vec<u8>,
}

/// Mathematical form of a [`HistoricalNote`].
pub struct HistoricalNoteView {
    pub version: Seq<u8>,
    pub description: Seq<u8>,
}

impl View for HistoricalNote {
    type V = HistoricalNoteView;

    open spec fn view(&self) -> HistoricalNoteView {
        HistoricalNoteView { version: self.version@, description: self.description@ }
    }
}

/// The note that a reply stands for: a pair of texts.
pub open spec fn historical_note_of(v: ValueView) -> Result<HistoricalNoteView, ErrorView> {
    match items_of(v) {
        Err(e) => Err(e),
        Ok(items) => if items.len() == 2 {
            match (text_of(items[0]), text_of(items[1])) {
                (Err(e), _) => Err(e),
                (Ok(_), Err(e)) => Err(e),
                (Ok(version), Ok(description)) => Ok(HistoricalNoteView { version, description }),
            }
        } else {
            Err(ErrorView::Parse(ParseTarget::Pair))
        },
    }
}

impl HistoricalNote {
    /// Reads a note from a reply.
    pub fn from_value(value: Value) -> (r: Result<HistoricalNote, Error>)
        ensures
            match historical_note_of(value@) {
                Ok(n) => r matches Ok(found) && found@ == n,
                Err(e) => r matches Err(g) && g@ == e,
            },
    {
        HistoricalNote::read(&value)
    }

    /// Reads a note from a reply.
    pub fn read(value: &Value) -> (r: Result<HistoricalNote, Error>)
        ensures
            match historical_note_of(value@) {
                Ok(n) => r matches Ok(found) && found@ == n,
                Err(e) => r matches Err(g) && g@ == e,
            },
    {
        let items = match to_items(value) {
            Ok(Some(items)) => items,
            Ok(None) => {
                return Err(Error::Parse(ParseTarget::Pair));
            },
            Err(e) => {
                return Err(e);
            },
        };
        if items.len() != 2 {
            return Err(Error::Parse(ParseTarget::Pair));
        }
        let version = match to_text(&items[0]) {
            Ok(t) => t,
            Err(e) => {
                return Err(e);
            },
        };
        let description = match to_text(&items[1]) {
            Ok(t) => t,
            Err(e) => {
                return Err(e);
            },
        };
        Ok(HistoricalNote { version, description })
    }
}

/// The value of the entry with the given key, nil where there is none.
pub open spec fn optional(entries: Seq<(Seq<u8>, ValueView)>, key: Seq<u8>) -> ValueView {
    match field(entries, key) {
        Some(v) => v,
        None => ValueView::BulkString(None),
    }
}

/// The text in the entry with the given key, empty where there is none.
pub fn read_optional_text(entries: &Vec<(Vec<u8>, Value)>, key: &str) -> (r: Result<Vec<u8>, Error>)
    ensures
        match text_of(optional(entry_views(entries@), bytes_of(key))) {
            Ok(t) => r matches Ok(found) && found@ == t,
            Err(e) => r matches Err(g) && g@ == e,
        },
{
    match lookup(entries, key) {
        Some(v) => to_text(v),
        None => Ok(Vec::new()),
    }
}

/// The argument flags that a reply holds in a row.
pub open spec fn argument_flags_of(v: ValueView) -> Result<Seq<ArgumentFlag>, ErrorView> {
    match items_of(v) {
        Ok(items) => collect(items, |item: ValueView| argument_flag_of(item)),
        Err(e) => Err(e),
    }
}

/// The documentation flags that a reply holds in a row.
pub open spec fn doc_flags_of(v: ValueView) -> Result<Seq<CommandDocFlag>, ErrorView> {
    match items_of(v) {
        Ok(items) => collect(items, |item: ValueView| doc_flag_of(item)),
        Err(e) => Err(e),
    }
}

/// The notes that a reply holds in a row.
pub open spec fn historical_notes_of(v: ValueView) -> Result<Seq<HistoricalNoteView>, ErrorView> {
    match items_of(v) {
        Ok(items) => collect(items, |item: ValueView| historical_note_of(item)),
        Err(e) => Err(e),
    }
}

/// The values of an argument: the one text of a string, or the texts of an
/// array.
pub open spec fn argument_values_of(v: ValueView) -> Result<Seq<Seq<u8>>, ErrorView> {
    match v {
        ValueView::BulkString(_) => match text_of(v) {
            Ok(t) => Ok(seq![t]),
            Err(e) => Err(e),
        },
        ValueView::Array(_) => texts_of(v),
        _ => Err(ErrorView::Parse(ParseTarget::CommandArgument)),
    }
}

/// What the server documents of one argument of a command.
#[derive(Debug, PartialEq, Eq)]
pub struct CommandArgument {
    pub name: Vec<u8>,
    pub display_text: Vec<u8>,
    pub type_: CommandArgumentType,
    pub key_spec_index: usize,
    pub token: Vec<u8>,
    pub summary: Vec<u8>,
    pub since: Vec<u8>,
    pub deprecated_since: Vec<u8>,
    pub flags: Vec<ArgumentFlag>,
    pub value: Vec<Vec<u8>>,
}

/// Mathematical form of a [`CommandArgument`].
pub struct CommandArgumentView {
    pub name: Seq<u8>,
    pub display_text: Seq<u8>,
    pub type_: CommandArgumentType,
    pub key_spec_index: usize,
    pub token: Seq<u8>,
    pub summary: Seq<u8>,
    pub since: Seq<u8>,
    pub deprecated_since: Seq<u8>,
    pub flags: Seq<ArgumentFlag>,
    pub value: Seq<Seq<u8>>,
}

impl View for CommandArgument {
    type V = CommandArgumentView;

    open spec fn view(&self) -> CommandArgumentView {
        CommandArgumentView {
            name: self.name@,
            display_text: self.display_text@,
            type_: self.type_,
            key_spec_index: self.key_spec_index,
            token: self.token@,
            summary: self.summary@,
            since: self.since@,
            deprecated_since: self.deprecated_since@,
            flags: self.flags@,
            value: byte_strings(self.value@),
        }
    }
}

/// The argument that a reply stands for: a dictionary with `name` and
/// `type`; the other entries may be missing and are then empty or 0.
pub open spec fn argument_of(v: ValueView) -> Result<CommandArgumentView, ErrorView> {
    let target = ParseTarget::CommandArgument;
    match entries_of(v) {
        Err(e) => Err(e),
        Ok(entries) => {
            let name = text_field(entries, bytes_of("name"), target);
            let display_text = text_of(optional(entries, bytes_of("display_text")));
            let type_ = match required(entries, bytes_of("type"), target) {
                Ok(t) => argument_type_of(t),
                Err(e) => Err(e),
            };
            let key_spec_index = usize_of(optional(entries, bytes_of("key_spec_index")));
            let token = text_of(optional(entries, bytes_of("token")));
            let summary = text_of(optional(entries, bytes_of("summary")));
            let since = text_of(optional(entries, bytes_of("since")));
            let deprecated_since = text_of(optional(entries, bytes_of("deprecated_since")));
            let flags = argument_flags_of(optional(entries, bytes_of("flags")));
            let value = argument_values_of(optional(entries, bytes_of("value")));
            if name is Err {
                Err(name->Err_0)
            } else if display_text is Err {
                Err(display_text->Err_0)
            } else if type_ is Err {
                Err(type_->Err_0)
            } else if key_spec_index is Err {
                Err(key_spec_index->Err_0)
            } else if token is Err {
                Err(token->Err_0)
            } else if summary is Err {
                Err(summary->Err_0)
            } else if since is Err {
                Err(since->Err_0)
            } else if deprecated_since is Err {
                Err(deprecated_since->Err_0)
            } else if flags is Err {
                Err(flags->Err_0)
            } else if value is Err {
                Err(value->Err_0)
            } else {
                Ok(
                    CommandArgumentView {
                        name: name->Ok_0,
                        display_text: display_text->Ok_0,
                        type_: type_->Ok_0,
                        key_spec_index: key_spec_index->Ok_0,
                        token: token->Ok_0,
                        summary: summary->Ok_0,
                        since: since->Ok_0,
                        deprecated_since: deprecated_since->Ok_0,
                        flags: flags->Ok_0,
                        value: value->Ok_0,
                    },
                )
            }
        },
    }
}

/// Reads argument flags in a row from a reply that may be missing.
pub fn read_argument_flags(value: Option<&Value>) -> (r: Result<Vec<ArgumentFlag>, Error>)
    ensures
        match argument_flags_of(
            match value {
                Some(v) => v@,
                None => ValueView::BulkString(None),
            },
        ) {
            Ok(f) => r matches Ok(found) && found@ == f,
            Err(e) => r matches Err(g) && g@ == e,
        },
{
    let mut out: Vec<ArgumentFlag> = Vec::new();
    let present = match value {
        Some(v) => v,
        None => {
            return Ok(out);
        },
    };
    let items = match to_items(present) {
        Ok(Some(items)) => items,
        Ok(None) => {
            return Ok(out);
        },
        Err(e) => {
            return Err(e);
        },
    };
    let ghost all = views(items@);
    let ghost f = |item: ValueView| argument_flag_of(item);
    let mut i: usize = 0;
    assert(all.take(0) =~= Seq::<ValueView>::empty());
    while i < items.len()
        invariant
            i <= items.len(),
            all == views(items@),
            value == Some(present),
            items_of(present@) == Ok::<Seq<ValueView>, ErrorView>(all),
            f == (|item: ValueView| argument_flag_of(item)),
            collect(all.take(i as int), f) == Ok::<Seq<ArgumentFlag>, ErrorView>(out@),
        decreases items.len() - i,
    {
        proof {
            lemma_collect_step(all, f, i as int);
        }
        match ArgumentFlag::read(&items[i]) {
            Ok(flag) => {
                out.push(flag);
            },
            Err(e) => {
                proof {
                    lemma_collect_error(all, f, i + 1);
                }
                return Err(e);
            },
        }
        i = i + 1;
    }
    assert(all.take(items.len() as int) =~= all);
    Ok(out)
}

/// Reads documentation flags in a row from a reply that may be missing.
pub fn read_doc_flags(value: Option<&Value>) -> (r: Result<Vec<CommandDocFlag>, Error>)
    ensures
        match doc_flags_of(
            match value {
                Some(v) => v@,
                None => ValueView::BulkString(None),
            },
        ) {
            Ok(f) => r matches Ok(found) && found@ == f,
            Err(e) => r matches Err(g) && g@ == e,
        },
{
    let mut out: Vec<CommandDocFlag> = Vec::new();
    let present = match value {
        Some(v) => v,
        None => {
            return Ok(out);
        },
    };
    let items = match to_items(present) {
        Ok(Some(items)) => items,
        Ok(None) => {
            return Ok(out);
        },
        Err(e) => {
            return Err(e);
        },
    };
    let ghost all = views(items@);
    let ghost f = |item: ValueView| doc_flag_of(item);
    let mut i: usize = 0;
    assert(all.take(0) =~= Seq::<ValueView>::empty());
    while i < items.len()
        invariant
            i <= items.len(),
            all == views(items@),
            value == Some(present),
            items_of(present@) == Ok::<Seq<ValueView>, ErrorView>(all),
            f == (|item: ValueView| doc_flag_of(item)),
            collect(all.take(i as int), f) == Ok::<Seq<CommandDocFlag>, ErrorView>(out@),
        decreases items.len() - i,
    {
        proof {
            lemma_collect_step(all, f, i as int);
        }
        match CommandDocFlag::read(&items[i]) {
            Ok(flag) => {
                out.push(flag);
            },
            Err(e) => {
                proof {
                    lemma_collect_error(all, f, i + 1);
                }
                return Err(e);
            },
        }
        i = i + 1;
    }
    assert(all.take(items.len() as int) =~= all);
    Ok(out)
}

/// The views of notes.
pub open spec fn note_views(notes: Seq<HistoricalNote>) -> Seq<HistoricalNoteView> {
    notes.map_values(|n: HistoricalNote| n@)
}

/// Reads notes in a row from a reply that may be missing.
pub fn read_history(value: Option<&Value>) -> (r: Result<Vec<HistoricalNote>, Error>)
    ensures
        match historical_notes_of(
            match value {
                Some(v) => v@,
                None => ValueView::BulkString(None),
            },
        ) {
            Ok(n) => r matches Ok(found) && note_views(found@) == n,
            Err(e) => r matches Err(g) && g@ == e,
        },
{
    let mut out: Vec<HistoricalNote> = Vec::new();
    assert(note_views(out@) =~= Seq::<HistoricalNoteView>::empty());
    let present = match value {
        Some(v) => v,
        None => {
            return Ok(out);
        },
    };
    let items = match to_items(present) {
        Ok(Some(items)) => items,
        Ok(None) => {
            return Ok(out);
        },
        Err(e) => {
            return Err(e);
        },
    };
    let ghost all = views(items@);
    let ghost f = |item: ValueView| historical_note_of(item);
    let mut i: usize = 0;
    assert(all.take(0) =~= Seq::<ValueView>::empty());
    while i < items.len()
        invariant
            i <= items.len(),
            all == views(items@),
            value == Some(present),
            items_of(present@) == Ok::<Seq<ValueView>, ErrorView>(all),
            f == (|item: ValueView| historical_note_of(item)),
            collect(all.take(i as int), f) == Ok::<Seq<HistoricalNoteView>, ErrorView>(
                note_views(out@),
            ),
        decreases items.len() - i,
    {
        proof {
            lemma_collect_step(all, f, i as int);
        }
        match HistoricalNote::read(&items[i]) {
            Ok(note) => {
                assert(note_views(out@.push(note)) =~= note_views(out@).push(note@));
                out.push(note);
            },
            Err(e) => {
                proof {
                    lemma_collect_error(all, f, i + 1);
                }
                return Err(e);
            },
        }
        i = i + 1;
    }
    assert(all.take(items.len() as int) =~= all);
    Ok(out)
}

/// Reads the values of an argument from a reply that may be missing.
pub fn read_argument_values(value: Option<&Value>) -> (r: Result<Vec<Vec<u8>>, Error>)
    ensures
        match argument_values_of(
            match value {
                Some(v) => v@,
                None => ValueView::BulkString(None),
            },
        ) {
            Ok(t) => r matches Ok(found) && byte_strings(found@) == t,
            Err(e) => r matches Err(g) && g@ == e,
        },
{
    match value {
        None => {
            let mut out: Vec<Vec<u8>> = Vec::new();
            out.push(Vec::new());
            assert(byte_strings(out@) =~= seq![Seq::<u8>::empty()]);
            Ok(out)
        },
        Some(v) => match v {
            Value::BulkString(_) => match to_text(v) {
                Ok(t) => {
                    let mut out: Vec<Vec<u8>> = Vec::new();
                    let ghost text = t@;
                    out.push(t);
                    assert(byte_strings(out@) =~= seq![text]);
                    Ok(out)
                },
                Err(e) => Err(e),
            },
            Value::Array(_) => to_texts(v),
            _ => Err(Error::Parse(ParseTarget::CommandArgument)),
        },
    }
}

impl CommandArgument {
    /// Reads an argument from a reply.
    pub fn from_value(value: Value) -> (r: Result<CommandArgument, Error>)
        ensures
            match argument_of(value@) {
                Ok(a) => r matches Ok(found) && found@ == a,
                Err(e) => r matches Err(g) && g@ == e,
            },
    {
        CommandArgument::read(&value)
    }

    /// Reads an argument from a reply.
    pub fn read(value: &Value) -> (r: Result<CommandArgument, Error>)
        ensures
            match argument_of(value@) {
                Ok(a) => r matches Ok(found) && found@ == a,
                Err(e) => r matches Err(g) && g@ == e,
            },
    {
        let target = ParseTarget::CommandArgument;
        let values = match to_entries(value) {
            Ok(values) => values,
            Err(e) => {
                return Err(e);
            },
        };
        let name = match read_text(&values, "name", target) {
            Ok(x) => x,
            Err(e) => {
                return Err(e);
            },
        };
        let display_text = match read_optional_text(&values, "display_text") {
            Ok(x) => x,
            Err(e) => {
                return Err(e);
            },
        };
        let type_ = match require(&values, "type", target) {
            Ok(t) => match CommandArgumentType::read(t) {
                Ok(t) => t,
                Err(e) => {
                    return Err(e);
                },
            },
            Err(e) => {
                return Err(e);
            },
        };
        let key_spec_index = match lookup(&values, "key_spec_index") {
            Some(v) => match to_usize(v) {
                Ok(x) => x,
                Err(e) => {
                    return Err(e);
                },
            },
            None => 0,
        };
        let token = match read_optional_text(&values, "token") {
            Ok(x) => x,
            Err(e) => {
                return Err(e);
            },
        };
        let summary = match read_optional_text(&values, "summary") {
            Ok(x) => x,
            Err(e) => {
                return Err(e);
            },
        };
        let since = match read_optional_text(&values, "since") {
            Ok(x) => x,
            Err(e) => {
                return Err(e);
            },
        };
        let deprecated_since = match read_optional_text(&values, "deprecated_since") {
            Ok(x) => x,
            Err(e) => {
                return Err(e);
            },
        };
        let flags = match read_argument_flags(lookup(&values, "flags")) {
            Ok(x) => x,
            Err(e) => {
                return Err(e);
            },
        };
        let value = match read_argument_values(lookup(&values, "value")) {
            Ok(x) => x,
            Err(e) => {
                return Err(e);
            },
        };
        Ok(
            CommandArgument {
                name,
                display_text,
                type_,
                key_spec_index,
                token,
                summary,
                since,
                deprecated_since,
                flags,
                value,
            },
        )
    }
}

/// The views of arguments.
pub open spec fn argument_views(arguments: Seq<CommandArgument>) -> Seq<CommandArgumentView> {
    arguments.map_values(|a: CommandArgument| a@)
}

/// The arguments that a reply holds in a row.
pub open spec fn arguments_of(v: ValueView) -> Result<Seq<CommandArgumentView>, ErrorView> {
    match items_of(v) {
        Ok(items) => collect(items, |item: ValueView| argument_of(item)),
        Err(e) => Err(e),
    }
}

/// Reads arguments in a row from a reply.
pub fn read_arguments(value: &Value) -> (r: Result<Vec<CommandArgument>, Error>)
    ensures
        match arguments_of(value@) {
            Ok(a) => r matches Ok(found) && argument_views(found@) == a,
            Err(e) => r matches Err(g) && g@ == e,
        },
{
    let mut out: Vec<CommandArgument> = Vec::new();
    assert(argument_views(out@) =~= Seq::<CommandArgumentView>::empty());
    let items = match to_items(value) {
        Ok(Some(items)) => items,
        Ok(None) => {
            return Ok(out);
        },
        Err(e) => {
            return Err(e);
        },
    };
    let ghost all = views(items@);
    let ghost f = |item: ValueView| argument_of(item);
    let mut i: usize = 0;
    assert(all.take(0) =~= Seq::<ValueView>::empty());
    while i < items.len()
        invariant
            i <= items.len(),
            all == views(items@),
            items_of(value@) == Ok::<Seq<ValueView>, ErrorView>(all),
            f == (|item: ValueView| argument_of(item)),
            collect(all.take(i as int), f) == Ok::<Seq<CommandArgumentView>, ErrorView>(
                argument_views(out@),
            ),
        decreases items.len() - i,
    {
        proof {
            lemma_collect_step(all, f, i as int);
        }
        match CommandArgument::read(&items[i]) {
            Ok(argument) => {
                assert(argument_views(out@.push(argument)) =~= argument_views(out@).push(
                    argument@,
                ));
                out.push(argument);
            },
            Err(e) => {
                proof {
                    lemma_collect_error(all, f, i + 1);
                }
                return Err(e);
            },
        }
        i = i + 1;
    }
    assert(all.take(items.len() as int) =~= all);
    Ok(out)
}

/// What the server documents of one command.
#[derive(Debug, PartialEq, Eq)]
pub struct CommandDoc {
    pub summary: Vec<u8>,
    pub since: Vec<u8>,
    pub group: Vec<u8>,
    pub complexity: Vec<u8>,
    pub doc_flags: Vec<CommandDocFlag>,
    pub deprecated_since: Vec<u8>,
    pub replaced_by: Vec<u8>,
    pub history: Vec<HistoricalNote>,
    pub arguments: Vec<CommandArgument>,
}

/// Mathematical form of a [`CommandDoc`].
pub struct CommandDocView {
    pub summary: Seq<u8>,
    pub since: Seq<u8>,
    pub group: Seq<u8>,
    pub complexity: Seq<u8>,
    pub doc_flags: Seq<CommandDocFlag>,
    pub deprecated_since: Seq<u8>,
    pub replaced_by: Seq<u8>,
    pub history: Seq<HistoricalNoteView>,
    pub arguments: Seq<CommandArgumentView>,
}

impl View for CommandDoc {
    type V = CommandDocView;

    open spec fn view(&self) -> CommandDocView {
        CommandDocView {
            summary: self.summary@,
            since: self.since@,
            group: self.group@,
            complexity: self.complexity@,
            doc_flags: self.doc_flags@,
            deprecated_since: self.deprecated_since@,
            replaced_by: self.replaced_by@,
            history: note_views(self.history@),
            arguments: argument_views(self.arguments@),
        }
    }
}

/// The documentation that a reply stands for: a dictionary with `summary`,
/// `since`, `group`, `complexity` and `arguments`; the other entries may be
/// missing and are then empty.
pub open spec fn command_doc_of(v: ValueView) -> Result<CommandDocView, ErrorView> {
    let target = ParseTarget::CommandDoc;
    match entries_of(v) {
        Err(e) => Err(e),
        Ok(entries) => {
            let summary = text_field(entries, bytes_of("summary"), target);
            let since = text_field(entries, bytes_of("since"), target);
            let group = text_field(entries, bytes_of("group"), target);
            let complexity = text_field(entries, bytes_of("complexity"), target);
            let doc_flags = doc_flags_of(optional(entries, bytes_of("doc_flags")));
            let deprecated_since = text_of(optional(entries, bytes_of("deprecated_since")));
            let replaced_by = text_of(optional(entries, bytes_of("replaced_by")));
            let history = historical_notes_of(optional(entries, bytes_of("history")));
            let arguments = match required(entries, bytes_of("arguments"), target) {
                Ok(a) => arguments_of(a),
                Err(e) => Err(e),
            };
            if summary is Err {
                Err(summary->Err_0)
            } else if since is Err {
                Err(since->Err_0)
            } else if group is Err {
                Err(group->Err_0)
            } else if complexity is Err {
                Err(complexity->Err_0)
            } else if doc_flags is Err {
                Err(doc_flags->Err_0)
            } else if deprecated_since is Err {
                Err(deprecated_since->Err_0)
            } else if replaced_by is Err {
                Err(replaced_by->Err_0)
            } else if history is Err {
                Err(history->Err_0)
            } else if arguments is Err {
                Err(arguments->Err_0)
            } else {
                Ok(
                    CommandDocView {
                        summary: summary->Ok_0,
                        since: since->Ok_0,
                        group: group->Ok_0,
                        complexity: complexity->Ok_0,
                        doc_flags: doc_flags->Ok_0,
                        deprecated_since: deprecated_since->Ok_0,
                        replaced_by: replaced_by->Ok_0,
                        history: history->Ok_0,
                        arguments: arguments->Ok_0,
                    },
                )
            }
        },
    }
}

impl CommandDoc {
    /// Reads the documentation of a command from a reply.
    pub fn from_value(value: Value) -> (r: Result<CommandDoc, Error>)
        ensures
            match command_doc_of(value@) {
                Ok(d) => r matches Ok(found) && found@ == d,
                Err(e) => r matches Err(g) && g@ == e,
            },
    {
        let target = ParseTarget::CommandDoc;
        let values = match to_entries(&value) {
            Ok(values) => values,
            Err(e) => {
                return Err(e);
            },
        };
        let summary = match read_text(&values, "summary", target) {
            Ok(x) => x,
            Err(e) => {
                return Err(e);
            },
        };
        let since = match read_text(&values, "since", target) {
            Ok(x) => x,
            Err(e) => {
                return Err(e);
            },
        };
        let group = match read_text(&values, "group", target) {
            Ok(x) => x,
            Err(e) => {
                return Err(e);
            },
        };
        let complexity = match read_text(&values, "complexity", target) {
            Ok(x) => x,
            Err(e) => {
                return Err(e);
            },
        };
        let doc_flags = match read_doc_flags(lookup(&values, "doc_flags")) {
            Ok(x) => x,
            Err(e) => {
                return Err(e);
            },
        };
        let deprecated_since = match read_optional_text(&values, "deprecated_since") {
            Ok(x) => x,
            Err(e) => {
                return Err(e);
            },
        };
        let replaced_by = match read_optional_text(&values, "replaced_by") {
            Ok(x) => x,
            Err(e) => {
                return Err(e);
            },
        };
        let history = match read_history(lookup(&values, "history")) {
            Ok(x) => x,
            Err(e) => {
                return Err(e);
            },
        };
        let arguments = match require(&values, "arguments", target) {
            Ok(a) => match read_arguments(a) {
                Ok(a) => a,
                Err(e) => {
                    return Err(e);
                },
            },
            Err(e) => {
                return Err(e);
            },
        };
        Ok(
            CommandDoc {
                summary,
                since,
                group,
                complexity,
                doc_flags,
                deprecated_since,
                replaced_by,
                history,
                arguments,
            },
        )
    }
}

} // verus!
