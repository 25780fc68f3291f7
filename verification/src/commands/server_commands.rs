//! What the server tells of its commands: arity, key positions, flags and
//! the tips on how to route a command in a cluster and how to combine its
//! replies.

use vstd::prelude::*;
use crate::error::{Error, ErrorView, ParseTarget};
use crate::resp::command::byte_strings;
use crate::resp::from_value::{
    entries_of, entry_views, field, isize_of, lookup, text_of, texts_of, to_entries, to_isize,
    to_text, to_texts, to_usize, usize_of,
};
use crate::resp::text::{bytes_of, copy_range, find_byte, index_of, lemma_find_byte, text_eq, COLON};
use crate::resp::value::{Value, ValueView};

verus! {

/// How to spread a command over the nodes of a cluster.
#[derive(Clone, Copy, Debug, PartialEq, Eq, Structural)]
pub enum RequestPolicy {
    /// Send to every node, masters and replicas alike.
    AllNodes,
    /// Send to the master of every shard.
    AllShards,
    /// Send to the shards that own the keys, each with its own keys.
    MultiShard,
    /// No rule that a client can follow.
    Special,
}

/// How to combine the replies of the nodes that a command was sent to.
#[derive(Clone, Copy, Debug, PartialEq, Eq, Structural)]
pub enum ResponsePolicy {
    OneSucceeded,
    AllSucceeded,
    AggLogicalAnd,
    AggLogicalOr,
    AggMin,
    AggMax,
    AggSum,
    Special,
}

/// A tip of the server on a command.
#[derive(Clone, Copy, Debug, PartialEq, Eq, Structural)]
pub enum CommandTip {
    NonDeterministricOutput,
    NonDeterministricOutputOrder,
    RequestPolicy(RequestPolicy),
    ResponsePolicy(ResponsePolicy),
}

/// The request policy with the given name.
pub open spec fn request_policy_named(name: Seq<u8>) -> Option<RequestPolicy> {
    if name == bytes_of("all_nodes") {
        Some(RequestPolicy::AllNodes)
    } else if name == bytes_of("all_shards") {
        Some(RequestPolicy::AllShards)
    } else if name == bytes_of("multi_shard") {
        Some(RequestPolicy::MultiShard)
    } else if name == bytes_of("special") {
        Some(RequestPolicy::Special)
    } else {
        None
    }
}

/// The response policy with the given name.
pub open spec fn response_policy_named(name: Seq<u8>) -> Option<ResponsePolicy> {
    if name == bytes_of("one_succeeded") {
        Some(ResponsePolicy::OneSucceeded)
    } else if name == bytes_of("all_succeeded") {
        Some(ResponsePolicy::AllSucceeded)
    } else if name == bytes_of("agg_logical_and") {
        Some(ResponsePolicy::AggLogicalAnd)
    } else if name == bytes_of("agg_logical_or") {
        Some(ResponsePolicy::AggLogicalOr)
    } else if name == bytes_of("agg_min") {
        Some(ResponsePolicy::AggMin)
    } else if name == bytes_of("agg_max") {
        Some(ResponsePolicy::AggMax)
    } else if name == bytes_of("agg_sum") {
        Some(ResponsePolicy::AggSum)
    } else if name == bytes_of("special") {
        Some(ResponsePolicy::Special)
    } else {
        None
    }
}

impl RequestPolicy {
    /// The policy with the given name.
    pub fn from_bytes(name: &[u8]) -> (r: Result<RequestPolicy, Error>)
        ensures
            match request_policy_named(name@) {
                Some(p) => r matches Ok(found) && found == p,
                None => r matches Err(e) && e@ == ErrorView::Parse(ParseTarget::RequestPolicy),
            },
    {
        if text_eq(name, "all_nodes") {
            Ok(RequestPolicy::AllNodes)
        } else if text_eq(name, "all_shards") {
            Ok(RequestPolicy::AllShards)
        } else if text_eq(name, "multi_shard") {
            Ok(RequestPolicy::MultiShard)
        } else if text_eq(name, "special") {
            Ok(RequestPolicy::Special)
        } else {
            Err(Error::Parse(ParseTarget::RequestPolicy))
        }
    }

    /// The policy with the given name.
    pub fn from_str(str: &str) -> (r: Result<RequestPolicy, Error>)
        ensures
            match request_policy_named(bytes_of(str)) {
                Some(p) => r matches Ok(found) && found == p,
                None => r matches Err(e) && e@ == ErrorView::Parse(ParseTarget::RequestPolicy),
            },
    {
        RequestPolicy::from_bytes(str.as_bytes())
    }
}

impl ResponsePolicy {
    /// The policy with the given name.
    pub fn from_bytes(name: &[u8]) -> (r: Result<ResponsePolicy, Error>)
        ensures
            match response_policy_named(name@) {
                Some(p) => r matches Ok(found) && found == p,
                None => r matches Err(e) && e@ == ErrorView::Parse(ParseTarget::ResponsePolicy),
            },
    {
        if text_eq(name, "one_succeeded") {
            Ok(ResponsePolicy::OneSucceeded)
        } else if text_eq(name, "all_succeeded") {
            Ok(ResponsePolicy::AllSucceeded)
        } else if text_eq(name, "agg_logical_and") {
            Ok(ResponsePolicy::AggLogicalAnd)
        } else if text_eq(name, "agg_logical_or") {
            Ok(ResponsePolicy::AggLogicalOr)
        } else if text_eq(name, "agg_min") {
            Ok(ResponsePolicy::AggMin)
        } else if text_eq(name, "agg_max") {
            Ok(ResponsePolicy::AggMax)
        } else if text_eq(name, "agg_sum") {
            Ok(ResponsePolicy::AggSum)
        } else if text_eq(name, "special") {
            Ok(ResponsePolicy::Special)
        } else {
            Err(Error::Parse(ParseTarget::ResponsePolicy))
        }
    }

    /// The policy with the given name.
    pub fn from_str(str: &str) -> (r: Result<ResponsePolicy, Error>)
        ensures
            match response_policy_named(bytes_of(str)) {
                Some(p) => r matches Ok(found) && found == p,
                None => r matches Err(e) && e@ == ErrorView::Parse(ParseTarget::ResponsePolicy),
            },
    {
        ResponsePolicy::from_bytes(str.as_bytes())
    }
}

/// The tip that a text stands for: one of the two plain tips, or the name of
/// a policy after `request_policy:` or `response_policy:`.
pub open spec fn tip_named(text: Seq<u8>) -> Result<CommandTip, ErrorView> {
    let colon = find_byte(text, COLON, 0);
    if text == bytes_of("nondeterministic_output") {
        Ok(CommandTip::NonDeterministricOutput)
    } else if text == bytes_of("nondeterministic_output_order") {
        Ok(CommandTip::NonDeterministricOutputOrder)
    } else if colon < text.len() && find_byte(text, COLON, colon + 1) == text.len() {
        if text.take(colon) == bytes_of("request_policy") {
            match request_policy_named(text.skip(colon + 1)) {
                Some(p) => Ok(CommandTip::RequestPolicy(p)),
                None => Err(ErrorView::Parse(ParseTarget::RequestPolicy)),
            }
        } else if text.take(colon) == bytes_of("response_policy") {
            match response_policy_named(text.skip(colon + 1)) {
                Some(p) => Ok(CommandTip::ResponsePolicy(p)),
                None => Err(ErrorView::Parse(ParseTarget::ResponsePolicy)),
            }
        } else {
            Err(ErrorView::Parse(ParseTarget::CommandTip))
        }
    } else {
        Err(ErrorView::Parse(ParseTarget::CommandTip))
    }
}

/// The tip that a reply stands for.
pub open spec fn tip_of(v: ValueView) -> Result<CommandTip, ErrorView> {
    match text_of(v) {
        Ok(text) => tip_named(text),
        Err(e) => Err(e),
    }
}

impl CommandTip {
    /// Reads a tip from a reply.
    pub fn from_value(value: Value) -> (r: Result<CommandTip, Error>)
        ensures
            match tip_of(value@) {
                Ok(tip) => r matches Ok(found) && found == tip,
                Err(e) => r matches Err(f) && f@ == e,
            },
    {
        CommandTip::read(&value)
    }

    /// Reads a tip from a reply.
    pub fn read(value: &Value) -> (r: Result<CommandTip, Error>)
        ensures
            match tip_of(value@) {
                Ok(tip) => r matches Ok(found) && found == tip,
                Err(e) => r matches Err(f) && f@ == e,
            },
    {
        let tip = match to_text(value) {
            Ok(tip) => tip,
            Err(e) => {
                return Err(e);
            },
        };
        let text = tip.as_slice();
        if text_eq(text, "nondeterministic_output") {
            return Ok(CommandTip::NonDeterministricOutput);
        }
        if text_eq(text, "nondeterministic_output_order") {
            return Ok(CommandTip::NonDeterministricOutputOrder);
        }
        let colon = index_of(text, COLON, 0);
        proof {
            lemma_find_byte(text@, COLON, 0);
        }
        if colon >= text.len() || index_of(text, COLON, colon + 1) != text.len() {
            return Err(Error::Parse(ParseTarget::CommandTip));
        }
        let head = copy_range(text, 0, colon);
        let tail = copy_range(text, colon + 1, text.len());
        assert(head@ =~= text@.take(colon as int));
        assert(tail@ =~= text@.skip(colon + 1));
        if text_eq(head.as_slice(), "request_policy") {
            match RequestPolicy::from_bytes(tail.as_slice()) {
                Ok(p) => Ok(CommandTip::RequestPolicy(p)),
                Err(e) => Err(e),
            }
        } else if text_eq(head.as_slice(), "response_policy") {
            match ResponsePolicy::from_bytes(tail.as_slice()) {
                Ok(p) => Ok(CommandTip::ResponsePolicy(p)),
                Err(e) => Err(e),
            }
        } else {
            Err(Error::Parse(ParseTarget::CommandTip))
        }
    }
}

/// Where the search for the keys of a command begins.
#[derive(Debug, PartialEq, Eq)]
pub enum BeginSearch {
    /// At the argument with this position; the command name has position 0.
    Index(usize),
    /// After the argument that equals `keyword`, searched from position
    /// `start_from`; a negative position counts from the end, backwards.
    Keyword { keyword: Vec<u8>, start_from: isize },
    /// The server gives no rule.
    Unknown,
}

/// Mathematical form of a [`BeginSearch`].
pub enum BeginSearchView {
    Index(usize),
    Keyword { keyword: Seq<u8>, start_from: isize },
    Unknown,
}

impl View for BeginSearch {
    type V = BeginSearchView;

    open spec fn view(&self) -> BeginSearchView {
        match *self {
            BeginSearch::Index(i) => BeginSearchView::Index(i),
            BeginSearch::Keyword { keyword, start_from } => BeginSearchView::Keyword {
                keyword: keyword@,
                start_from,
            },
            BeginSearch::Unknown => BeginSearchView::Unknown,
        }
    }
}

/// Which arguments from the first key on are keys.
#[derive(Clone, Copy, Debug, PartialEq, Eq)]
pub enum FindKeys {
    /// Every `key_step`-th argument up to position `last_key`, counted from
    /// the first key; a negative `last_key` counts from the last argument,
    /// and with `last_key` -1 a `limit` of 2 or more stops at that fraction
    /// of the arguments.
    Range { last_key: isize, key_step: usize, limit: isize },
    /// The argument at `key_num_idx` holds the number of keys; they start at
    /// `first_key`, every `key_step`-th argument. Both positions count from
    /// where the search began.
    KeyEnum { key_num_idx: isize, first_key: isize, key_step: usize },
    /// The server gives no rule.
    Unknown,
}

/// One rule on where the keys of a command are.
#[derive(Debug, PartialEq, Eq)]
pub struct KeySpecification {
    pub begin_search: BeginSearch,
    pub find_keys: FindKeys,
    pub flags: Vec<Vec<u8>>,
    pub notes: Vec<u8>,
}

/// Mathematical form of a [`KeySpecification`].
pub struct KeySpecificationView {
    pub begin_search: BeginSearchView,
    pub find_keys: FindKeys,
    pub flags: Seq<Seq<u8>>,
    pub notes: Seq<u8>,
}

impl View for KeySpecification {
    type V = KeySpecificationView;

    open spec fn view(&self) -> KeySpecificationView {
        KeySpecificationView {
            begin_search: self.begin_search@,
            find_keys: self.find_keys,
            flags: byte_strings(self.flags@),
            notes: self.notes@,
        }
    }
}

/// The value of the entry with the given key, which has to be there.
pub open spec fn required(
    entries: Seq<(Seq<u8>, ValueView)>,
    key: Seq<u8>,
    target: ParseTarget,
) -> Result<ValueView, ErrorView> {
    match field(entries, key) {
        Some(v) => Ok(v),
        None => Err(ErrorView::Parse(target)),
    }
}

/// The value of the entry with the given key, which has to be there.
pub fn require<'a>(entries: &'a Vec<(Vec<u8>, Value)>, key: &str, target: ParseTarget) -> (r:
    Result<&'a Value, Error>)
    ensures
        match required(entry_views(entries@), bytes_of(key), target) {
            Ok(v) => r matches Ok(found) && found@ == v,
            Err(e) => r matches Err(f) && f@ == e,
        },
{
    match lookup(entries, key) {
        Some(v) => Ok(v),
        None => Err(Error::Parse(target)),
    }
}

/// The entries of the `spec` entry of a rule.
pub open spec fn spec_entries(entries: Seq<(Seq<u8>, ValueView)>, target: ParseTarget) -> Result<
    Seq<(Seq<u8>, ValueView)>,
    ErrorView,
> {
    match required(entries, bytes_of("spec"), target) {
        Ok(v) => entries_of(v),
        Err(e) => Err(e),
    }
}

/// The entries of the `spec` entry of a rule.
pub fn read_spec(entries: &Vec<(Vec<u8>, Value)>, target: ParseTarget) -> (r: Result<
    Vec<(Vec<u8>, Value)>,
    Error,
>)
    ensures
        match spec_entries(entry_views(entries@), target) {
            Ok(spec) => r matches Ok(found) && entry_views(found@) == spec,
            Err(e) => r matches Err(f) && f@ == e,
        },
{
    match require(entries, "spec", target) {
        Ok(v) => to_entries(v),
        Err(e) => Err(e),
    }
}

/// The count or position in the entry with the given key.
pub open spec fn usize_field(entries: Seq<(Seq<u8>, ValueView)>, key: Seq<u8>, target: ParseTarget)
    -> Result<usize, ErrorView> {
    match required(entries, key, target) {
        Ok(v) => usize_of(v),
        Err(e) => Err(e),
    }
}

/// The signed position in the entry with the given key.
pub open spec fn isize_field(entries: Seq<(Seq<u8>, ValueView)>, key: Seq<u8>, target: ParseTarget)
    -> Result<isize, ErrorView> {
    match required(entries, key, target) {
        Ok(v) => isize_of(v),
        Err(e) => Err(e),
    }
}

/// The text in the entry with the given key.
pub open spec fn text_field(entries: Seq<(Seq<u8>, ValueView)>, key: Seq<u8>, target: ParseTarget)
    -> Result<Seq<u8>, ErrorView> {
    match required(entries, key, target) {
        Ok(v) => text_of(v),
        Err(e) => Err(e),
    }
}

/// The count or position in the entry with the given key.
pub fn read_usize(entries: &Vec<(Vec<u8>, Value)>, key: &str, target: ParseTarget) -> (r: Result<
    usize,
    Error,
>)
    ensures
        match usize_field(entry_views(entries@), bytes_of(key), target) {
            Ok(i) => r matches Ok(found) && found == i,
            Err(e) => r matches Err(f) && f@ == e,
        },
{
    match require(entries, key, target) {
        Ok(v) => to_usize(v),
        Err(e) => Err(e),
    }
}

/// The signed position in the entry with the given key.
pub fn read_isize(entries: &Vec<(Vec<u8>, Value)>, key: &str, target: ParseTarget) -> (r: Result<
    isize,
    Error,
>)
    ensures
        match isize_field(entry_views(entries@), bytes_of(key), target) {
            Ok(i) => r matches Ok(found) && found == i,
            Err(e) => r matches Err(f) && f@ == e,
        },
{
    match require(entries, key, target) {
        Ok(v) => to_isize(v),
        Err(e) => Err(e),
    }
}

/// The text in the entry with the given key.
pub fn read_text(entries: &Vec<(Vec<u8>, Value)>, key: &str, target: ParseTarget) -> (r: Result<
    Vec<u8>,
    Error,
>)
    ensures
        match text_field(entry_views(entries@), bytes_of(key), target) {
            Ok(t) => r matches Ok(found) && found@ == t,
            Err(e) => r matches Err(f) && f@ == e,
        },
{
    match require(entries, key, target) {
        Ok(v) => to_text(v),
        Err(e) => Err(e),
    }
}

/// The begin-search rule that a reply stands for: a dictionary with a
/// `type` and, for the types `index` and `keyword`, a `spec`.
pub open spec fn begin_search_of(v: ValueView) -> Result<BeginSearchView, ErrorView> {
    let target = ParseTarget::BeginSearch;
    match entries_of(v) {
        Err(e) => Err(e),
        Ok(entries) => match text_field(entries, bytes_of("type"), target) {
            Err(e) => Err(e),
            Ok(kind) => if kind == bytes_of("index") {
                match spec_entries(entries, target) {
                    Err(e) => Err(e),
                    Ok(spec) => match usize_field(spec, bytes_of("index"), target) {
                        Err(e) => Err(e),
                        Ok(i) => Ok(BeginSearchView::Index(i)),
                    },
                }
            } else if kind == bytes_of("keyword") {
                match spec_entries(entries, target) {
                    Err(e) => Err(e),
                    Ok(spec) => match text_field(spec, bytes_of("keyword"), target) {
                        Err(e) => Err(e),
                        Ok(keyword) => match isize_field(spec, bytes_of("startfrom"), target) {
                            Err(e) => Err(e),
                            Ok(start_from) => Ok(BeginSearchView::Keyword { keyword, start_from }),
                        },
                    },
                }
            } else if kind == bytes_of("unknown") {
                Ok(BeginSearchView::Unknown)
            } else {
                Err(ErrorView::Parse(target))
            },
        },
    }
}

/// The find-keys rule that a reply stands for: a dictionary with a `type`
/// and, for the types `range` and `keynum`, a `spec`.
pub open spec fn find_keys_of(v: ValueView) -> Result<FindKeys, ErrorView> {
    let target = ParseTarget::FindKeys;
    match entries_of(v) {
        Err(e) => Err(e),
        Ok(entries) => match text_field(entries, bytes_of("type"), target) {
            Err(e) => Err(e),
            Ok(kind) => if kind == bytes_of("range") {
                match spec_entries(entries, target) {
                    Err(e) => Err(e),
                    Ok(spec) => match isize_field(spec, bytes_of("lastkey"), target) {
                        Err(e) => Err(e),
                        Ok(last_key) => match usize_field(spec, bytes_of("keystep"), target) {
                            Err(e) => Err(e),
                            Ok(key_step) => match isize_field(spec, bytes_of("limit"), target) {
                                Err(e) => Err(e),
                                Ok(limit) => Ok(FindKeys::Range { last_key, key_step, limit }),
                            },
                        },
                    },
                }
            } else if kind == bytes_of("keynum") {
                match spec_entries(entries, target) {
                    Err(e) => Err(e),
                    Ok(spec) => match isize_field(spec, bytes_of("keynumidx"), target) {
                        Err(e) => Err(e),
                        Ok(key_num_idx) => match isize_field(spec, bytes_of("firstkey"), target) {
                            Err(e) => Err(e),
                            Ok(first_key) => match usize_field(spec, bytes_of("keystep"), target) {
                                Err(e) => Err(e),
                                Ok(key_step) => Ok(
                                    FindKeys::KeyEnum { key_num_idx, first_key, key_step },
                                ),
                            },
                        },
                    },
                }
            } else if kind == bytes_of("unknown") {
                Ok(FindKeys::Unknown)
            } else {
                Err(ErrorView::Parse(target))
            },
        },
    }
}

impl BeginSearch {
    /// Reads a begin-search rule from a reply.
    pub fn from_value(value: Value) -> (r: Result<BeginSearch, Error>)
        ensures
            match begin_search_of(value@) {
                Ok(b) => r matches Ok(found) && found@ == b,
                Err(e) => r matches Err(f) && f@ == e,
            },
    {
        BeginSearch::read(&value)
    }

    /// Reads a begin-search rule from a reply.
    pub fn read(value: &Value) -> (r: Result<BeginSearch, Error>)
        ensures
            match begin_search_of(value@) {
                Ok(b) => r matches Ok(found) && found@ == b,
                Err(e) => r matches Err(f) && f@ == e,
            },
    {
        let target = ParseTarget::BeginSearch;
        let values = match to_entries(value) {
            Ok(values) => values,
            Err(e) => {
                return Err(e);
            },
        };
        let kind = match read_text(&values, "type", target) {
            Ok(kind) => kind,
            Err(e) => {
                return Err(e);
            },
        };
        if text_eq(kind.as_slice(), "index") {
            let spec = match read_spec(&values, target) {
                Ok(spec) => spec,
                Err(e) => {
                    return Err(e);
                },
            };
            match read_usize(&spec, "index", target) {
                Ok(i) => Ok(BeginSearch::Index(i)),
                Err(e) => Err(e),
            }
        } else if text_eq(kind.as_slice(), "keyword") {
            let spec = match read_spec(&values, target) {
                Ok(spec) => spec,
                Err(e) => {
                    return Err(e);
                },
            };
            let keyword = match read_text(&spec, "keyword", target) {
                Ok(keyword) => keyword,
                Err(e) => {
                    return Err(e);
                },
            };
            match read_isize(&spec, "startfrom", target) {
                Ok(start_from) => Ok(BeginSearch::Keyword { keyword, start_from }),
                Err(e) => Err(e),
            }
        } else if text_eq(kind.as_slice(), "unknown") {
            Ok(BeginSearch::Unknown)
        } else {
            Err(Error::Parse(target))
        }
    }
}

impl FindKeys {
    /// Reads a find-keys rule from a reply.
    pub fn from_value(value: Value) -> (r: Result<FindKeys, Error>)
        ensures
            match find_keys_of(value@) {
                Ok(k) => r matches Ok(found) && found == k,
                Err(e) => r matches Err(f) && f@ == e,
            },
    {
        FindKeys::read(&value)
    }

    /// Reads a find-keys rule from a reply.
    pub fn read(value: &Value) -> (r: Result<FindKeys, Error>)
        ensures
            match find_keys_of(value@) {
                Ok(k) => r matches Ok(found) && found == k,
                Err(e) => r matches Err(f) && f@ == e,
            },
    {
        let target = ParseTarget::FindKeys;
        let values = match to_entries(value) {
            Ok(values) => values,
            Err(e) => {
                return Err(e);
            },
        };
        let kind = match read_text(&values, "type", target) {
            Ok(kind) => kind,
            Err(e) => {
                return Err(e);
            },
        };
        if text_eq(kind.as_slice(), "range") {
            let spec = match read_spec(&values, target) {
                Ok(spec) => spec,
                Err(e) => {
                    return Err(e);
                },
            };
            let last_key = match read_isize(&spec, "lastkey", target) {
                Ok(i) => i,
                Err(e) => {
                    return Err(e);
                },
            };
            let key_step = match read_usize(&spec, "keystep", target) {
                Ok(i) => i,
                Err(e) => {
                    return Err(e);
                },
            };
            match read_isize(&spec, "limit", target) {
                Ok(limit) => Ok(FindKeys::Range { last_key, key_step, limit }),
                Err(e) => Err(e),
            }
        } else if text_eq(kind.as_slice(), "keynum") {
            let spec = match read_spec(&values, target) {
                Ok(spec) => spec,
                Err(e) => {
                    return Err(e);
                },
            };
            let key_num_idx = match read_isize(&spec, "keynumidx", target) {
                Ok(i) => i,
                Err(e) => {
                    return Err(e);
                },
            };
            let first_key = match read_isize(&spec, "firstkey", target) {
                Ok(i) => i,
                Err(e) => {
                    return Err(e);
                },
            };
            match read_usize(&spec, "keystep", target) {
                Ok(key_step) => Ok(FindKeys::KeyEnum { key_num_idx, first_key, key_step }),
                Err(e) => Err(e),
            }
        } else if text_eq(kind.as_slice(), "unknown") {
            Ok(FindKeys::Unknown)
        } else {
            Err(Error::Parse(target))
        }
    }
}

/// The key specification that a reply stands for: a dictionary with
/// `begin_search`, `find_keys` and `flags`, and with `notes` or without.
pub open spec fn key_specification_of(v: ValueView) -> Result<KeySpecificationView, ErrorView> {
    let target = ParseTarget::KeySpecification;
    match entries_of(v) {
        Err(e) => Err(e),
        Ok(entries) => {
            let notes = match field(entries, bytes_of("notes")) {
                Some(n) => text_of(n),
                None => Ok(Seq::empty()),
            };
            let begin_search = match required(entries, bytes_of("begin_search"), target) {
                Ok(b) => begin_search_of(b),
                Err(e) => Err(e),
            };
            let find_keys = match required(entries, bytes_of("find_keys"), target) {
                Ok(k) => find_keys_of(k),
                Err(e) => Err(e),
            };
            let flags = match required(entries, bytes_of("flags"), target) {
                Ok(f) => texts_of(f),
                Err(e) => Err(e),
            };
            if notes is Err {
                Err(notes->Err_0)
            } else if begin_search is Err {
                Err(begin_search->Err_0)
            } else if find_keys is Err {
                Err(find_keys->Err_0)
            } else if flags is Err {
                Err(flags->Err_0)
            } else {
                Ok(
                    KeySpecificationView {
                        begin_search: begin_search->Ok_0,
                        find_keys: find_keys->Ok_0,
                        flags: flags->Ok_0,
                        notes: notes->Ok_0,
                    },
                )
            }
        },
    }
}

impl KeySpecification {
    /// Reads a key specification from a reply.
    pub fn from_value(value: Value) -> (r: Result<KeySpecification, Error>)
        ensures
            match key_specification_of(value@) {
                Ok(k) => r matches Ok(found) && found@ == k,
                Err(e) => r matches Err(f) && f@ == e,
            },
    {
        KeySpecification::read(&value)
    }

    /// Reads a key specification from a reply.
    pub fn read(value: &Value) -> (r: Result<KeySpecification, Error>)
        ensures
            match key_specification_of(value@) {
                Ok(k) => r matches Ok(found) && found@ == k,
                Err(e) => r matches Err(f) && f@ == e,
            },
    {
        let target = ParseTarget::KeySpecification;
        let values = match to_entries(value) {
            Ok(values) => values,
            Err(e) => {
                return Err(e);
            },
        };
        let notes = match lookup(&values, "notes") {
            Some(notes) => match to_text(notes) {
                Ok(notes) => notes,
                Err(e) => {
                    return Err(e);
                },
            },
            None => Vec::new(),
        };
        let begin_search = match require(&values, "begin_search", target) {
            Ok(b) => match BeginSearch::read(b) {
                Ok(b) => b,
                Err(e) => {
                    return Err(e);
                },
            },
            Err(e) => {
                return Err(e);
            },
        };
        let find_keys = match require(&values, "find_keys", target) {
            Ok(k) => match FindKeys::read(k) {
                Ok(k) => k,
                Err(e) => {
                    return Err(e);
                },
            },
            Err(e) => {
                return Err(e);
            },
        };
        let flags = match require(&values, "flags", target) {
            Ok(f) => match to_texts(f) {
                Ok(f) => f,
                Err(e) => {
                    return Err(e);
                },
            },
            Err(e) => {
                return Err(e);
            },
        };
        Ok(KeySpecification { begin_search, find_keys, flags, notes })
    }
}

} // verus!
