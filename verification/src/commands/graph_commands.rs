//! Graph queries: their options, and the header of a result set.

use vstd::prelude::*;
use crate::error::{Error, ErrorView, ParseTarget};
use crate::network::cluster_shards::{to_u16, u16_of};
use crate::client::client::Client;
use crate::client::pipeline::Pipeline;
use crate::client::prepared_command::{prepare_command, PreparedCommand};
use crate::client::transaction::Transaction;
use crate::commands::bitmap_commands::command_of;
use crate::client::pipeline::BatchPreparedCommand;
use crate::resp::command::{
    byte_strings, cmd, command_views, lemma_byte_strings_push, Command, CommandArgs, CommandView,
    IntoArgs,
};
use crate::resp::decimal::{decimal, decimal_value, parse_u64, push_length, MINUS};
use crate::resp::from_value::{
    collect, integer_of, items_of, lemma_collect_error, lemma_collect_step, text_of, to_integer,
    to_items, to_text,
};
use crate::resp::text::{
    bytes_of, copy_bytes, copy_range, find_byte, index_of, text_eq, COLON, SPACE,
};
use crate::resp::value::{views, Value, ValueView};

verus! {

/// Options of a graph query.
pub struct GraphQueryOptions {
    pub command_args: CommandArgs,
}

impl GraphQueryOptions {
    /// The longest time, in milliseconds, that the query may take.
    pub fn timeout(timeout: u64) -> (r: GraphQueryOptions)
        ensures
            r.command_args@ == seq![bytes_of("TIMEOUT"), decimal(timeout as int)],
    {
        let r = GraphQueryOptions { command_args: CommandArgs::new().arg("TIMEOUT").arg(timeout) };
        assert(r.command_args@ =~= seq![bytes_of("TIMEOUT"), decimal(timeout as int)]);
        r
    }
}

impl Default for GraphQueryOptions {
    fn default() -> (r: GraphQueryOptions)
        ensures
            r.command_args@ == Seq::<Seq<u8>>::empty(),
    {
        GraphQueryOptions { command_args: CommandArgs::default() }
    }
}

impl IntoArgs for GraphQueryOptions {
    open spec fn arg_list(&self) -> Seq<Seq<u8>> {
        self.command_args@
    }

    fn into_args(self, args: CommandArgs) -> (r: CommandArgs) {
        args.arg(self.command_args)
    }
}

/// The header of a result set: the names of its columns.
#[derive(Debug, PartialEq, Eq)]
pub struct GraphHeader {
    pub column_names: Vec<Vec<u8>>,
}

impl View for GraphHeader {
    type V = Seq<Seq<u8>>;

    open spec fn view(&self) -> Seq<Seq<u8>> {
        byte_strings(self.column_names@)
    }
}

/// The name of the column that a reply stands for: a pair of the type of
/// the column and its name.
pub open spec fn column_name_of(v: ValueView) -> Result<Seq<u8>, ErrorView> {
    match items_of(v) {
        Err(e) => Err(e),
        Ok(items) => if items.len() == 2 {
            match u16_of(items[0], ParseTarget::GraphHeader) {
                Err(e) => Err(e),
                Ok(_) => text_of(items[1]),
            }
        } else {
            Err(ErrorView::Parse(ParseTarget::Pair))
        },
    }
}

/// The header that a reply stands for: an array of columns.
pub open spec fn graph_header_of(v: ValueView) -> Result<Seq<Seq<u8>>, ErrorView> {
    match items_of(v) {
        Err(e) => Err(e),
        Ok(items) => collect(items, |item: ValueView| column_name_of(item)),
    }
}

/// Reads the name of a column from a reply.
pub fn read_column_name(value: &Value) -> (r: Result<Vec<u8>, Error>)
    ensures
        match column_name_of(value@) {
            Ok(n) => r matches Ok(found) && found@ == n,
            Err(e) => r matches Err(g) && g@ == e,
        },
{
    let items = match to_items(value) {
        Ok(Some(items)) => items,
        Ok(None) => {
            return Err(Error::Parse(ParseTarget::Pair));
        },
        Err(e) => {
            return Err(e);
        },
    };
    if items.len() != 2 {
        return Err(Error::Parse(ParseTarget::Pair));
    }
    match to_u16(&items[0], ParseTarget::GraphHeader) {
        Ok(_) => to_text(&items[1]),
        Err(e) => Err(e),
    }
}

impl GraphHeader {
    /// Reads the header of a result set from a reply.
    pub fn from_value(value: Value) -> (r: Result<GraphHeader, Error>)
        ensures
            match graph_header_of(value@) {
                Ok(names) => r matches Ok(found) && found@ == names,
                Err(e) => r matches Err(g) && g@ == e,
            },
    {
        let mut column_names: Vec<Vec<u8>> = Vec::new();
        assert(byte_strings(column_names@) =~= Seq::<Seq<u8>>::empty());
        let items = match to_items(&value) {
            Ok(Some(items)) => items,
            Ok(None) => {
                return Ok(GraphHeader { column_names });
            },
            Err(e) => {
                return Err(e);
            },
        };
        let ghost all = views(items@);
        let ghost f = |item: ValueView| column_name_of(item);
        let mut i: usize = 0;
        assert(all.take(0) =~= Seq::<ValueView>::empty());
        while i < items.len()
            invariant
                i <= items.len(),
                all == views(items@),
                items_of(value@) == Ok::<Seq<ValueView>, ErrorView>(all),
                f == (|item: ValueView| column_name_of(item)),
                collect(all.take(i as int), f) == Ok::<Seq<Seq<u8>>, ErrorView>(
                    byte_strings(column_names@),
                ),
            decreases items.len() - i,
        {
            proof {
                lemma_collect_step(all, f, i as int);
            }
            match read_column_name(&items[i]) {
                Ok(name) => {
                    proof {
                        lemma_byte_strings_push(column_names@, name);
                    }
                    column_names.push(name);
                },
                Err(e) => {
                    proof {
                        lemma_collect_error(all, f, i + 1);
                    }
                    return Err(e);
                },
            }
            i = i + 1;
        }
        assert(all.take(items.len() as int) =~= all);
        Ok(GraphHeader { column_names })
    }
}

impl Default for GraphHeader {
    fn default() -> (r: GraphHeader)
        ensures
            r@ == Seq::<Seq<u8>>::empty(),
    {
        let r = GraphHeader { column_names: Vec::new() };
        assert(r@ =~= Seq::<Seq<u8>>::empty());
        r
    }
}

/// The position of the first colon at or after `from` that a space
/// follows; the length of `s` where there is none.
pub open spec fn find_separator(s: Seq<u8>, from: int) -> int
    decreases s.len() - from,
{
    if from < 0 || from + 1 >= s.len() {
        s.len() as int
    } else if s[from] == COLON && s[from + 1] == SPACE {
        from
    } else {
        find_separator(s, from + 1)
    }
}

/// The name and the value of one statistic: what stands before the first
/// colon and space of a bulk string, and what stands after them.
pub open spec fn statistic_of(v: ValueView) -> Result<(Seq<u8>, Seq<u8>), ErrorView> {
    match v {
        ValueView::BulkString(Some(text)) => {
            let at = find_separator(text, 0);
            if at < text.len() {
                Ok((text.take(at), text.skip(at + 2)))
            } else {
                Err(ErrorView::Parse(ParseTarget::GraphQueryStatistics))
            }
        },
        _ => Err(ErrorView::Parse(ParseTarget::GraphQueryStatistics)),
    }
}

/// The value of the last statistic with the given name.
pub open spec fn statistic(entries: Seq<(Seq<u8>, Seq<u8>)>, name: Seq<u8>) -> Option<Seq<u8>>
    decreases entries.len(),
{
    if entries.len() == 0 {
        None
    } else if entries.last().0 == name {
        Some(entries.last().1)
    } else {
        statistic(entries.drop_last(), name)
    }
}

/// The count that the statistic with the given name holds: 0 where there is
/// none. The text has to be a decimal number without minus sign and not
/// above `max`.
pub open spec fn counted(entries: Seq<(Seq<u8>, Seq<u8>)>, name: Seq<u8>, max: int) -> Result<
    int,
    ErrorView,
> {
    match statistic(entries, name) {
        None => Ok(0),
        Some(text) => match decimal_value(text) {
            Some(n) => if text[0] != MINUS && n <= max {
                Ok(n)
            } else {
                Err(ErrorView::Parse(ParseTarget::GraphQueryStatistics))
            },
            None => Err(ErrorView::Parse(ParseTarget::GraphQueryStatistics)),
        },
    }
}

/// The time that the query took, as the text of a number: what stands
/// before the first space of the statistic; `0` where there is no such
/// statistic.
pub open spec fn execution_time(entries: Seq<(Seq<u8>, Seq<u8>)>) -> Result<Seq<u8>, ErrorView> {
    match statistic(entries, bytes_of("Query internal execution time")) {
        None => Ok(bytes_of("0")),
        Some(text) => if find_byte(text, SPACE, 0) < text.len() {
            Ok(text.take(find_byte(text, SPACE, 0)))
        } else {
            Err(ErrorView::Parse(ParseTarget::GraphQueryStatistics))
        },
    }
}

/// The name is one of those that the statistics of a query are looked up
/// by.
pub open spec fn is_known_statistic(name: Seq<u8>) -> bool {
    name == bytes_of("Labels added") || name == bytes_of("Labels removed") || name == bytes_of(
        "Nodes created",
    ) || name == bytes_of("Nodes deleted:") || name == bytes_of("Properties set") || name
        == bytes_of("Properties removed") || name == bytes_of("Relationships created") || name
        == bytes_of("Relationships deleted") || name == bytes_of("Indices created") || name
        == bytes_of("Indices deleted") || name == bytes_of("Cached execution") || name
        == bytes_of("Query internal execution time")
}

/// The statistics with a name that is not looked up, in order.
pub open spec fn other_statistics(entries: Seq<(Seq<u8>, Seq<u8>)>) -> Seq<(Seq<u8>, Seq<u8>)>
    decreases entries.len(),
{
    if entries.len() == 0 {
        Seq::empty()
    } else if is_known_statistic(entries.last().0) {
        other_statistics(entries.drop_last())
    } else {
        other_statistics(entries.drop_last()).push(entries.last())
    }
}

/// The views of statistics.
pub open spec fn statistic_views(entries: Seq<(Vec<u8>, Vec<u8>)>) -> Seq<(Seq<u8>, Seq<u8>)> {
    entries.map_values(|e: (Vec<u8>, Vec<u8>)| (e.0@, e.1@))
}

/// The statistics of a query.
#[derive(Debug, PartialEq, Eq)]
pub struct GraphQueryStatistics {
    pub labels_added: usize,
    pub labels_removed: usize,
    pub nodes_created: usize,
    pub nodes_deleted: usize,
    pub properties_set: usize,
    pub properties_removed: usize,
    pub relationships_created: usize,
    pub relationships_deleted: usize,
    pub indices_created: usize,
    pub indices_deleted: usize,
    pub cached_execution: bool,
    /// The time that the query took, in milliseconds, as the text of a
    /// number.
    pub query_internal_execution_time: Vec<u8>,
    /// The statistics that have no field of their own, name and value.
    pub additional_statistics: Vec<(Vec<u8>, Vec<u8>)>,
}

/// Mathematical form of a [`GraphQueryStatistics`].
pub struct GraphQueryStatisticsView {
    pub labels_added: usize,
    pub labels_removed: usize,
    pub nodes_created: usize,
    pub nodes_deleted: usize,
    pub properties_set: usize,
    pub properties_removed: usize,
    pub relationships_created: usize,
    pub relationships_deleted: usize,
    pub indices_created: usize,
    pub indices_deleted: usize,
    pub cached_execution: bool,
    pub query_internal_execution_time: Seq<u8>,
    pub additional_statistics: Seq<(Seq<u8>, Seq<u8>)>,
}

impl View for GraphQueryStatistics {
    type V = GraphQueryStatisticsView;

    open spec fn view(&self) -> GraphQueryStatisticsView {
        GraphQueryStatisticsView {
            labels_added: self.labels_added,
            labels_removed: self.labels_removed,
            nodes_created: self.nodes_created,
            nodes_deleted: self.nodes_deleted,
            properties_set: self.properties_set,
            properties_removed: self.properties_removed,
            relationships_created: self.relationships_created,
            relationships_deleted: self.relationships_deleted,
            indices_created: self.indices_created,
            indices_deleted: self.indices_deleted,
            cached_execution: self.cached_execution,
            query_internal_execution_time: self.query_internal_execution_time@,
            additional_statistics: statistic_views(self.additional_statistics@),
        }
    }
}

/// The statistics that a reply stands for: an array of bulk strings of the
/// form `name: value`. A count that is missing is 0.
pub open spec fn graph_statistics_of(v: ValueView) -> Result<GraphQueryStatisticsView, ErrorView> {
    match items_of(v) {
        Err(e) => Err(e),
        Ok(items) => match collect(items, |item: ValueView| statistic_of(item)) {
            Err(e) => Err(e),
            Ok(entries) => {
                let max = usize::MAX as int;
                let labels_added = counted(entries, bytes_of("Labels added"), max);
                let labels_removed = counted(entries, bytes_of("Labels removed"), max);
                let nodes_created = counted(entries, bytes_of("Nodes created"), max);
                let nodes_deleted = counted(entries, bytes_of("Nodes deleted:"), max);
                let properties_set = counted(entries, bytes_of("Properties set"), max);
                let properties_removed = counted(entries, bytes_of("Properties removed"), max);
                let relationships_created = counted(
                    entries,
                    bytes_of("Relationships created"),
                    max,
                );
                let relationships_deleted = counted(
                    entries,
                    bytes_of("Relationships deleted"),
                    max,
                );
                let indices_created = counted(entries, bytes_of("Indices created"), max);
                let indices_deleted = counted(entries, bytes_of("Indices deleted"), max);
                let cached = counted(entries, bytes_of("Cached execution"), 255);
                let time = execution_time(entries);
                if labels_added is Err {
                    Err(labels_added->Err_0)
                } else if labels_removed is Err {
                    Err(labels_removed->Err_0)
                } else if nodes_created is Err {
                    Err(nodes_created->Err_0)
                } else if nodes_deleted is Err {
                    Err(nodes_deleted->Err_0)
                } else if properties_set is Err {
                    Err(properties_set->Err_0)
                } else if properties_removed is Err {
                    Err(properties_removed->Err_0)
                } else if relationships_created is Err {
                    Err(relationships_created->Err_0)
                } else if relationships_deleted is Err {
                    Err(relationships_deleted->Err_0)
                } else if indices_created is Err {
                    Err(indices_created->Err_0)
                } else if indices_deleted is Err {
                    Err(indices_deleted->Err_0)
                } else if cached is Err {
                    Err(cached->Err_0)
                } else if time is Err {
                    Err(time->Err_0)
                } else {
                    Ok(
                        GraphQueryStatisticsView {
                            labels_added: labels_added->Ok_0 as usize,
                            labels_removed: labels_removed->Ok_0 as usize,
                            nodes_created: nodes_created->Ok_0 as usize,
                            nodes_deleted: nodes_deleted->Ok_0 as usize,
                            properties_set: properties_set->Ok_0 as usize,
                            properties_removed: properties_removed->Ok_0 as usize,
                            relationships_created: relationships_created->Ok_0 as usize,
                            relationships_deleted: relationships_deleted->Ok_0 as usize,
                            indices_created: indices_created->Ok_0 as usize,
                            indices_deleted: indices_deleted->Ok_0 as usize,
                            cached_execution: cached->Ok_0 != 0,
                            query_internal_execution_time: time->Ok_0,
                            additional_statistics: other_statistics(entries),
                        },
                    )
                }
            },
        },
    }
}

/// The position of the first colon that a space follows.
fn separator(text: &[u8]) -> (r: usize)
    ensures
        r == find_separator(text@, 0),
{
    let mut i: usize = 0;
    while i < text.len() && text.len() - i >= 2
        invariant
            find_separator(text@, 0) == find_separator(text@, i as int),
        decreases text.len() - i,
    {
        if text[i] == COLON && text[i + 1] == SPACE {
            return i;
        }
        i = i + 1;
    }
    text.len()
}

/// Reads the name and the value of one statistic.
pub fn read_statistic(value: &Value) -> (r: Result<(Vec<u8>, Vec<u8>), Error>)
    ensures
        match statistic_of(value@) {
            Ok(s) => r matches Ok(found) && (found.0@, found.1@) == s,
            Err(e) => r matches Err(g) && g@ == e,
        },
{
    match value {
        Value::BulkString(Some(text)) => {
            let at = separator(text.as_slice());
            if at < text.len() {
                proof {
                    lemma_find_separator(text@, 0);
                }
                let name = copy_range(text.as_slice(), 0, at);
                let rest = copy_range(text.as_slice(), at + 2, text.len());
                assert(name@ =~= text@.take(at as int));
                assert(rest@ =~= text@.skip(at + 2));
                Ok((name, rest))
            } else {
                Err(Error::Parse(ParseTarget::GraphQueryStatistics))
            }
        },
        _ => Err(Error::Parse(ParseTarget::GraphQueryStatistics)),
    }
}

/// A separator that is found stands within the text, before its last byte.
pub proof fn lemma_find_separator(s: Seq<u8>, from: int)
    requires
        0 <= from,
    ensures
        from <= find_separator(s, from) || find_separator(s, from) == s.len(),
        find_separator(s, from) < s.len() ==> find_separator(s, from) + 2 <= s.len(),
    decreases s.len() - from,
{
    if from + 1 < s.len() && !(s[from] == COLON && s[from + 1] == SPACE) {
        lemma_find_separator(s, from + 1);
    }
}

/// The value of the last statistic with the given name.
fn find_statistic<'a>(entries: &'a Vec<(Vec<u8>, Vec<u8>)>, name: &str) -> (r: Option<&'a Vec<u8>>)
    ensures
        match statistic(statistic_views(entries@), bytes_of(name)) {
            Some(text) => r matches Some(found) && found@ == text,
            None => r is None,
        },
{
    let ghost all = statistic_views(entries@);
    let mut i: usize = entries.len();
    assert(all.take(i as int) =~= all);
    while i > 0
        invariant
            i <= entries.len(),
            all == statistic_views(entries@),
            statistic(all, bytes_of(name)) == statistic(all.take(i as int), bytes_of(name)),
        decreases i,
    {
        proof {
            assert(all.take(i as int).drop_last() =~= all.take(i - 1));
        }
        if text_eq(entries[i - 1].0.as_slice(), name) {
            return Some(&entries[i - 1].1);
        }
        i = i - 1;
    }
    None
}

/// The count that the statistic with the given name holds.
fn read_count(entries: &Vec<(Vec<u8>, Vec<u8>)>, name: &str, max: u64) -> (r: Result<u64, Error>)
    ensures
        match counted(statistic_views(entries@), bytes_of(name), max as int) {
            Ok(n) => r matches Ok(found) && found == n,
            Err(e) => r matches Err(g) && g@ == e,
        },
{
    match find_statistic(entries, name) {
        None => Ok(0),
        Some(text) => match parse_u64(text.as_slice()) {
            Some(n) => if n <= max {
                Ok(n)
            } else {
                Err(Error::Parse(ParseTarget::GraphQueryStatistics))
            },
            None => Err(Error::Parse(ParseTarget::GraphQueryStatistics)),
        },
    }
}

/// Whether the name is one of those that the statistics of a query are
/// looked up by.
fn known_statistic(name: &[u8]) -> (r: bool)
    ensures
        r == is_known_statistic(name@),
{
    text_eq(name, "Labels added") || text_eq(name, "Labels removed") || text_eq(
        name,
        "Nodes created",
    ) || text_eq(name, "Nodes deleted:") || text_eq(name, "Properties set") || text_eq(
        name,
        "Properties removed",
    ) || text_eq(name, "Relationships created") || text_eq(name, "Relationships deleted")
        || text_eq(name, "Indices created") || text_eq(name, "Indices deleted") || text_eq(
        name,
        "Cached execution",
    ) || text_eq(name, "Query internal execution time")
}

impl GraphQueryStatistics {
    /// Reads the statistics of a query from a reply.
    pub fn from_value(value: Value) -> (r: Result<GraphQueryStatistics, Error>)
        ensures
            match graph_statistics_of(value@) {
                Ok(s) => r matches Ok(found) && found@ == s,
                Err(e) => r matches Err(g) && g@ == e,
            },
    {
        let mut statistics: Vec<(Vec<u8>, Vec<u8>)> = Vec::new();
        assert(statistic_views(statistics@) =~= Seq::<(Seq<u8>, Seq<u8>)>::empty());
        let ghost f = |item: ValueView| statistic_of(item);
        match to_items(&value) {
            Err(e) => {
                return Err(e);
            },
            Ok(None) => {},
            Ok(Some(items)) => {
                let ghost all = views(items@);
                let mut i: usize = 0;
                assert(all.take(0) =~= Seq::<ValueView>::empty());
                while i < items.len()
                    invariant
                        i <= items.len(),
                        all == views(items@),
                        items_of(value@) == Ok::<Seq<ValueView>, ErrorView>(all),
                        f == (|item: ValueView| statistic_of(item)),
                        collect(all.take(i as int), f) == Ok::<
                            Seq<(Seq<u8>, Seq<u8>)>,
                            ErrorView,
                        >(statistic_views(statistics@)),
                    decreases items.len() - i,
                {
                    proof {
                        lemma_collect_step(all, f, i as int);
                    }
                    match read_statistic(&items[i]) {
                        Ok(entry) => {
                            assert(statistic_views(statistics@.push(entry)) =~= statistic_views(
                                statistics@,
                            ).push((entry.0@, entry.1@)));
                            statistics.push(entry);
                        },
                        Err(e) => {
                            proof {
                                lemma_collect_error(all, f, i + 1);
                            }
                            return Err(e);
                        },
                    }
                    i = i + 1;
                }
                assert(all.take(items.len() as int) =~= all);
            },
        }
        let ghost entries = statistic_views(statistics@);
        assert(items_of(value@) matches Ok(items) && collect(items, f) == Ok::<
            Seq<(Seq<u8>, Seq<u8>)>,
            ErrorView,
        >(entries));
        let max: u64 = usize::MAX as u64;
        let labels_added = match read_count(&statistics, "Labels added", max) {
            Ok(n) => n as usize,
            Err(e) => {
                return Err(e);
            },
        };
        let labels_removed = match read_count(&statistics, "Labels removed", max) {
            Ok(n) => n as usize,
            Err(e) => {
                return Err(e);
            },
        };
        let nodes_created = match read_count(&statistics, "Nodes created", max) {
            Ok(n) => n as usize,
            Err(e) => {
                return Err(e);
            },
        };
        let nodes_deleted = match read_count(&statistics, "Nodes deleted:", max) {
            Ok(n) => n as usize,
            Err(e) => {
                return Err(e);
            },
        };
        let properties_set = match read_count(&statistics, "Properties set", max) {
            Ok(n) => n as usize,
            Err(e) => {
                return Err(e);
            },
        };
        let properties_removed = match read_count(&statistics, "Properties removed", max) {
            Ok(n) => n as usize,
            Err(e) => {
                return Err(e);
            },
        };
        let relationships_created = match read_count(&statistics, "Relationships created", max) {
            Ok(n) => n as usize,
            Err(e) => {
                return Err(e);
            },
        };
        let relationships_deleted = match read_count(&statistics, "Relationships deleted", max) {
            Ok(n) => n as usize,
            Err(e) => {
                return Err(e);
            },
        };
        let indices_created = match read_count(&statistics, "Indices created", max) {
            Ok(n) => n as usize,
            Err(e) => {
                return Err(e);
            },
        };
        let indices_deleted = match read_count(&statistics, "Indices deleted", max) {
            Ok(n) => n as usize,
            Err(e) => {
                return Err(e);
            },
        };
        let cached_execution = match read_count(&statistics, "Cached execution", 255) {
            Ok(n) => n != 0,
            Err(e) => {
                return Err(e);
            },
        };
        let query_internal_execution_time = match find_statistic(
            &statistics,
            "Query internal execution time",
        ) {
            None => copy_bytes("0".as_bytes()),
            Some(text) => {
                let space = index_of(text.as_slice(), SPACE, 0);
                if space >= text.len() {
                    return Err(Error::Parse(ParseTarget::GraphQueryStatistics));
                }
                let number = copy_range(text.as_slice(), 0, space);
                assert(number@ =~= text@.take(space as int));
                number
            },
        };
        let mut additional_statistics: Vec<(Vec<u8>, Vec<u8>)> = Vec::new();
        let mut i: usize = 0;
        assert(entries.take(0) =~= Seq::<(Seq<u8>, Seq<u8>)>::empty());
        assert(statistic_views(additional_statistics@) =~= Seq::<(Seq<u8>, Seq<u8>)>::empty());
        while i < statistics.len()
            invariant
                i <= statistics.len(),
                entries == statistic_views(statistics@),
                statistic_views(additional_statistics@) == other_statistics(entries.take(i as int)),
            decreases statistics.len() - i,
        {
            proof {
                assert(entries.take(i + 1).drop_last() =~= entries.take(i as int));
            }
            if !known_statistic(statistics[i].0.as_slice()) {
                let entry = (
                    copy_bytes(statistics[i].0.as_slice()),
                    copy_bytes(statistics[i].1.as_slice()),
                );
                assert(statistic_views(additional_statistics@.push(entry)) =~= statistic_views(
                    additional_statistics@,
                ).push((entry.0@, entry.1@)));
                additional_statistics.push(entry);
            }
            i = i + 1;
        }
        assert(entries.take(statistics.len() as int) =~= entries);
        Ok(
            GraphQueryStatistics {
                labels_added,
                labels_removed,
                nodes_created,
                nodes_deleted,
                properties_set,
                properties_removed,
                relationships_created,
                relationships_deleted,
                indices_created,
                indices_deleted,
                cached_execution,
                query_internal_execution_time,
                additional_statistics,
            },
        )
    }
}

/// One row of a result set: a value for each column of the header. The
/// values are kept as the server sent them.
#[derive(Debug, PartialEq, Eq)]
pub struct GraphResultRow {
    pub values: Vec<Value>,
}

impl View for GraphResultRow {
    type V = Seq<ValueView>;

    open spec fn view(&self) -> Seq<ValueView> {
        views(self.values@)
    }
}

/// The views of rows.
pub open spec fn row_views(rows: Seq<GraphResultRow>) -> Seq<Seq<ValueView>> {
    rows.map_values(|row: GraphResultRow| row@)
}

/// The row that a reply stands for: an array.
pub open spec fn graph_row_of(v: ValueView) -> Result<Seq<ValueView>, ErrorView> {
    match v {
        ValueView::Array(Some(items)) => Ok(items),
        _ => Err(ErrorView::Parse(ParseTarget::GraphResultRow)),
    }
}

impl GraphResultRow {
    /// Reads a row of a result set from a reply.
    pub fn from_value(value: Value) -> (r: Result<GraphResultRow, Error>)
        ensures
            match graph_row_of(value@) {
                Ok(row) => r matches Ok(found) && found@ == row,
                Err(e) => r matches Err(g) && g@ == e,
            },
    {
        match value {
            Value::Array(Some(values)) => Ok(GraphResultRow { values }),
            _ => Err(Error::Parse(ParseTarget::GraphResultRow)),
        }
    }
}

/// What a query gave: a header, rows and statistics.
#[derive(Debug, PartialEq, Eq)]
pub struct GraphResultSet {
    pub header: GraphHeader,
    pub rows: Vec<GraphResultRow>,
    pub statistics: GraphQueryStatistics,
}

/// Mathematical form of a [`GraphResultSet`].
pub struct GraphResultSetView {
    pub header: Seq<Seq<u8>>,
    pub rows: Seq<Seq<ValueView>>,
    pub statistics: GraphQueryStatisticsView,
}

impl View for GraphResultSet {
    type V = GraphResultSetView;

    open spec fn view(&self) -> GraphResultSetView {
        GraphResultSetView {
            header: self.header@,
            rows: row_views(self.rows@),
            statistics: self.statistics@,
        }
    }
}

/// The result set that a reply stands for. A reply of one value holds the
/// statistics alone. A reply of three values holds the header, an array of
/// rows and the statistics; of these the rows are read first, then the
/// header. No other reply is a result set.
pub open spec fn result_set_of(v: ValueView) -> Result<GraphResultSetView, ErrorView> {
    match items_of(v) {
        Err(e) => Err(e),
        Ok(items) => if items.len() == 1 {
            match graph_statistics_of(items[0]) {
                Err(e) => Err(e),
                Ok(statistics) => Ok(
                    GraphResultSetView { header: Seq::empty(), rows: Seq::empty(), statistics },
                ),
            }
        } else if items.len() == 3 && items[1] matches ValueView::Array(Some(replies)) {
            match collect(items[1]->Array_0->Some_0, |row: ValueView| graph_row_of(row)) {
                Err(e) => Err(e),
                Ok(rows) => match graph_header_of(items[0]) {
                    Err(e) => Err(e),
                    Ok(header) => match graph_statistics_of(items[2]) {
                        Err(e) => Err(e),
                        Ok(statistics) => Ok(GraphResultSetView { header, rows, statistics }),
                    },
                },
            }
        } else {
            Err(ErrorView::Parse(ParseTarget::GraphResultSet))
        },
    }
}

/// The text of the last value of each row, in order. A row without values
/// has none.
pub open spec fn last_column(rows: Seq<Seq<ValueView>>) -> Result<Seq<Seq<u8>>, ErrorView>
    decreases rows.len(),
{
    if rows.len() == 0 {
        Ok(Seq::empty())
    } else {
        match last_column(rows.drop_last()) {
            Err(e) => Err(e),
            Ok(front) => if rows.last().len() == 0 {
                Err(ErrorView::Parse(ParseTarget::GraphResultRow))
            } else {
                match text_of(rows.last().last()) {
                    Err(e) => Err(e),
                    Ok(text) => Ok(front.push(text)),
                }
            },
        }
    }
}

/// An error met among the first rows is the error of the whole column.
pub proof fn lemma_last_column_error(rows: Seq<Seq<ValueView>>, k: int)
    requires
        0 <= k <= rows.len(),
        last_column(rows.take(k)) is Err,
    ensures
        last_column(rows) == last_column(rows.take(k)),
    decreases rows.len() - k,
{
    if k < rows.len() {
        assert(rows.take(k + 1).drop_last() =~= rows.take(k));
        lemma_last_column_error(rows, k + 1);
    } else {
        assert(rows.take(k) =~= rows);
    }
}

/// Reads the rows of a result set from the replies that hold them.
fn read_rows(replies: &Vec<Value>) -> (r: Result<Vec<GraphResultRow>, Error>)
    ensures
        match collect(views(replies@), |row: ValueView| graph_row_of(row)) {
            Ok(rows) => r matches Ok(found) && row_views(found@) == rows,
            Err(e) => r matches Err(g) && g@ == e,
        },
{
    let ghost all = views(replies@);
    let ghost f = |row: ValueView| graph_row_of(row);
    let mut rows: Vec<GraphResultRow> = Vec::new();
    let mut i: usize = 0;
    assert(all.take(0) =~= Seq::<ValueView>::empty());
    assert(row_views(rows@) =~= Seq::<Seq<ValueView>>::empty());
    while i < replies.len()
        invariant
            i <= replies.len(),
            all == views(replies@),
            f == (|row: ValueView| graph_row_of(row)),
            collect(all.take(i as int), f) == Ok::<Seq<Seq<ValueView>>, ErrorView>(
                row_views(rows@),
            ),
        decreases replies.len() - i,
    {
        proof {
            lemma_collect_step(all, f, i as int);
        }
        match GraphResultRow::from_value(replies[i].duplicate()) {
            Ok(row) => {
                assert(row_views(rows@.push(row)) =~= row_views(rows@).push(row@));
                rows.push(row);
            },
            Err(e) => {
                proof {
                    lemma_collect_error(all, f, i + 1);
                }
                return Err(e);
            },
        }
        i = i + 1;
    }
    assert(all.take(replies.len() as int) =~= all);
    Ok(rows)
}

impl GraphResultSet {
    /// Reads a result set from the reply to a query.
    pub fn from_value(value: Value) -> (r: Result<GraphResultSet, Error>)
        ensures
            match result_set_of(value@) {
                Ok(set) => r matches Ok(found) && found@ == set,
                Err(e) => r matches Err(g) && g@ == e,
            },
    {
        let items = match to_items(&value) {
            Ok(Some(items)) => items,
            Ok(None) => {
                return Err(Error::Parse(ParseTarget::GraphResultSet));
            },
            Err(e) => {
                return Err(e);
            },
        };
        if items.len() == 1 {
            let rows: Vec<GraphResultRow> = Vec::new();
            assert(row_views(rows@) =~= Seq::<Seq<ValueView>>::empty());
            return match GraphQueryStatistics::from_value(items[0].duplicate()) {
                Ok(statistics) => Ok(
                    GraphResultSet { header: GraphHeader::default(), rows, statistics },
                ),
                Err(e) => Err(e),
            };
        }
        if items.len() != 3 {
            return Err(Error::Parse(ParseTarget::GraphResultSet));
        }
        let rows = match &items[1] {
            Value::Array(Some(replies)) => match read_rows(replies) {
                Ok(rows) => rows,
                Err(e) => {
                    return Err(e);
                },
            },
            _ => {
                return Err(Error::Parse(ParseTarget::GraphResultSet));
            },
        };
        let header = match GraphHeader::from_value(items[0].duplicate()) {
            Ok(header) => header,
            Err(e) => {
                return Err(e);
            },
        };
        match GraphQueryStatistics::from_value(items[2].duplicate()) {
            Ok(statistics) => Ok(GraphResultSet { header, rows, statistics }),
            Err(e) => Err(e),
        }
    }

    /// The text of the last value of each row.
    pub fn last_texts(&self) -> (r: Result<Vec<Vec<u8>>, Error>)
        ensures
            match last_column(self@.rows) {
                Ok(texts) => r matches Ok(found) && byte_strings(found@) == texts,
                Err(e) => r matches Err(g) && g@ == e,
            },
    {
        let ghost all = row_views(self.rows@);
        let mut texts: Vec<Vec<u8>> = Vec::new();
        let mut i: usize = 0;
        assert(all.take(0) =~= Seq::<Seq<ValueView>>::empty());
        assert(byte_strings(texts@) =~= Seq::<Seq<u8>>::empty());
        while i < self.rows.len()
            invariant
                i <= self.rows.len(),
                all == row_views(self.rows@),
                last_column(all.take(i as int)) == Ok::<Seq<Seq<u8>>, ErrorView>(
                    byte_strings(texts@),
                ),
            decreases self.rows.len() - i,
        {
            proof {
                assert(all.take(i + 1).drop_last() =~= all.take(i as int));
                assert(all.take(i + 1).last() == views(self.rows@[i as int].values@));
            }
            let values = &self.rows[i].values;
            if values.len() == 0 {
                proof {
                    lemma_last_column_error(all, i + 1);
                }
                return Err(Error::Parse(ParseTarget::GraphResultRow));
            }
            match to_text(&values[values.len() - 1]) {
                Ok(text) => {
                    proof {
                        lemma_byte_strings_push(texts@, text);
                    }
                    texts.push(text);
                },
                Err(e) => {
                    proof {
                        lemma_last_column_error(all, i + 1);
                    }
                    return Err(e);
                },
            }
            i = i + 1;
        }
        assert(all.take(self.rows.len() as int) =~= all);
        Ok(texts)
    }
}

/// The name of the graph that a command is about: its first argument.
pub open spec fn graph_name_of(command: CommandView) -> Result<Seq<u8>, ErrorView> {
    if command.args.len() > 0 {
        Ok(command.args[0])
    } else {
        Err(ErrorView::Parse(ParseTarget::GraphCommand))
    }
}

/// The name of the graph that a command is about.
pub fn graph_name(command: &Command) -> (r: Result<Vec<u8>, Error>)
    ensures
        match graph_name_of(command@) {
            Ok(name) => r matches Ok(found) && found@ == name,
            Err(e) => r matches Err(g) && g@ == e,
        },
{
    if command.args.len() > 0 {
        Ok(copy_bytes(command.args.get(0)))
    } else {
        Err(Error::Parse(ParseTarget::GraphCommand))
    }
}

/// The query that lists what a graph has named since the first `known`
/// names of a kind: the text of the procedure call and the count.
pub open spec fn names_query(call: Seq<u8>, known: usize) -> Seq<u8> {
    call + decimal(known as int)
}

/// The three queries that list the labels, the property keys and the
/// relationship types that a graph has named beyond those known.
pub open spec fn missing_ids_queries(
    graph: Seq<u8>,
    node_labels: usize,
    property_keys: usize,
    relationship_types: usize,
) -> Seq<CommandView> {
    seq![
        command_of(
            "GRAPH.QUERY",
            seq![
                graph,
                names_query(
                    bytes_of("CALL db.labels() YIELD label RETURN label SKIP "),
                    node_labels,
                ),
                bytes_of("--compact"),
            ],
        ),
        command_of(
            "GRAPH.QUERY",
            seq![
                graph,
                names_query(
                    bytes_of("CALL db.propertyKeys() YIELD propertyKey RETURN propertyKey SKIP "),
                    property_keys,
                ),
                bytes_of("--compact"),
            ],
        ),
        command_of(
            "GRAPH.QUERY",
            seq![
                graph,
                names_query(
                    bytes_of(
                        "CALL db.relationshipTypes() YIELD relationshipType RETURN relationshipType SKIP ",
                    ),
                    relationship_types,
                ),
                bytes_of("--compact"),
            ],
        ),
    ]
}

/// Queues the query that lists names beyond the first `known`.
fn queue_names_query(pipeline: &mut Pipeline, graph: &[u8], call: &str, known: usize)
    ensures
        command_views(final(pipeline).commands@) == command_views(old(pipeline).commands@).push(
            command_of(
                "GRAPH.QUERY",
                seq![graph@, names_query(bytes_of(call), known), bytes_of("--compact")],
            ),
        ),
        final(pipeline).forget_flags@ == old(pipeline).forget_flags@.push(false),
        final(pipeline).retry_on_error == old(pipeline).retry_on_error,
{
    let mut query = copy_bytes(call.as_bytes());
    push_length(&mut query, known);
    let ghost wanted = seq![graph@, query@, bytes_of("--compact")];
    let prepared = pipeline.graph_query(graph, query, GraphQueryOptions::default());
    assert(prepared.command@.args =~= wanted);
    let ghost command = prepared.command;
    prepared.queue();
    assert(command_views(pipeline.commands@) =~= command_views(old(pipeline).commands@).push(
        command@,
    ));
}

/// A pipeline of the three queries that list what a graph has named beyond
/// the names known.
pub fn load_missing_ids(
    graph: &[u8],
    node_labels: usize,
    property_keys: usize,
    relationship_types: usize,
) -> (r: Pipeline)
    ensures
        command_views(r.commands@) == missing_ids_queries(
            graph@,
            node_labels,
            property_keys,
            relationship_types,
        ),
        r.forget_flags@ == seq![false, false, false],
        r.retry_on_error is None,
{
    let mut pipeline = Pipeline::new();
    assert(command_views(pipeline.commands@) =~= Seq::<CommandView>::empty());
    queue_names_query(
        &mut pipeline,
        graph,
        "CALL db.labels() YIELD label RETURN label SKIP ",
        node_labels,
    );
    queue_names_query(
        &mut pipeline,
        graph,
        "CALL db.propertyKeys() YIELD propertyKey RETURN propertyKey SKIP ",
        property_keys,
    );
    queue_names_query(
        &mut pipeline,
        graph,
        "CALL db.relationshipTypes() YIELD relationshipType RETURN relationshipType SKIP ",
        relationship_types,
    );
    assert(command_views(pipeline.commands@) =~= missing_ids_queries(
        graph@,
        node_labels,
        property_keys,
        relationship_types,
    ));
    assert(pipeline.forget_flags@ =~= seq![false, false, false]);
    pipeline
}

/// One entry of the log of slow queries.
#[derive(Debug, PartialEq, Eq)]
pub struct GraphSlowlogResult {
    /// When the entry was written, as a Unix time.
    pub processing_time: u64,
    /// The command issued.
    pub issued_command: Vec<u8>,
    /// The query issued.
    pub issued_query: Vec<u8>,
    /// The time that the query took, in milliseconds, as the text of a
    /// number.
    pub execution_duration: Vec<u8>,
}

/// Mathematical form of a [`GraphSlowlogResult`].
pub struct GraphSlowlogView {
    pub processing_time: u64,
    pub issued_command: Seq<u8>,
    pub issued_query: Seq<u8>,
    pub execution_duration: Seq<u8>,
}

impl View for GraphSlowlogResult {
    type V = GraphSlowlogView;

    open spec fn view(&self) -> GraphSlowlogView {
        GraphSlowlogView {
            processing_time: self.processing_time,
            issued_command: self.issued_command@,
            issued_query: self.issued_query@,
            execution_duration: self.execution_duration@,
        }
    }
}

/// The entry that a reply stands for: an array of a time, a command, a
/// query and a duration.
pub open spec fn slowlog_of(v: ValueView) -> Result<GraphSlowlogView, ErrorView> {
    match items_of(v) {
        Err(e) => Err(e),
        Ok(items) => if items.len() == 4 {
            let time = integer_of(items[0]);
            let command = text_of(items[1]);
            let query = text_of(items[2]);
            let duration = text_of(items[3]);
            if time is Err {
                Err(time->Err_0)
            } else if time->Ok_0 < 0 {
                Err(ErrorView::Parse(ParseTarget::Integer))
            } else if command is Err {
                Err(command->Err_0)
            } else if query is Err {
                Err(query->Err_0)
            } else if duration is Err {
                Err(duration->Err_0)
            } else {
                Ok(
                    GraphSlowlogView {
                        processing_time: time->Ok_0 as u64,
                        issued_command: command->Ok_0,
                        issued_query: query->Ok_0,
                        execution_duration: duration->Ok_0,
                    },
                )
            }
        } else {
            Err(ErrorView::Parse(ParseTarget::GraphSlowlogResult))
        },
    }
}

impl GraphSlowlogResult {
    /// Reads an entry of the log of slow queries from a reply.
    pub fn from_value(value: Value) -> (r: Result<GraphSlowlogResult, Error>)
        ensures
            match slowlog_of(value@) {
                Ok(s) => r matches Ok(found) && found@ == s,
                Err(e) => r matches Err(g) && g@ == e,
            },
    {
        let items = match to_items(&value) {
            Ok(Some(items)) => items,
            Ok(None) => {
                return Err(Error::Parse(ParseTarget::GraphSlowlogResult));
            },
            Err(e) => {
                return Err(e);
            },
        };
        if items.len() != 4 {
            return Err(Error::Parse(ParseTarget::GraphSlowlogResult));
        }
        let processing_time = match to_integer(&items[0]) {
            Ok(t) => if t < 0 {
                return Err(Error::Parse(ParseTarget::Integer));
            } else {
                t as u64
            },
            Err(e) => {
                return Err(e);
            },
        };
        let issued_command = match to_text(&items[1]) {
            Ok(t) => t,
            Err(e) => {
                return Err(e);
            },
        };
        let issued_query = match to_text(&items[2]) {
            Ok(t) => t,
            Err(e) => {
                return Err(e);
            },
        };
        let execution_duration = match to_text(&items[3]) {
            Ok(t) => t,
            Err(e) => {
                return Err(e);
            },
        };
        Ok(GraphSlowlogResult { processing_time, issued_command, issued_query, execution_duration })
    }
}

/// Commands on graphs. Each command is its name and the arguments in the
/// order given; a query asks for the compact form of its results.
pub trait GraphCommands: Sized {
    /// Reads a parameter of the configuration of the graphs.
    fn graph_config_get<N: IntoArgs>(&mut self, name: N) -> (r: PreparedCommand<'_, Self>)
        ensures
            r.command@ == command_of("GRAPH.CONFIG", seq![bytes_of("GET")] + name.arg_list()),
            *r.executor == *old(self),
            *final(self) == *final(r.executor),
    {
        let ghost wanted = seq![bytes_of("GET")] + name.arg_list();
        let command = cmd("GRAPH.CONFIG").arg("GET").arg(name);
        assert(command@.args =~= wanted);
        prepare_command(self, command)
    }

    /// Sets a parameter of the configuration of the graphs.
    fn graph_config_set<N: IntoArgs, V: IntoArgs>(&mut self, name: N, value: V) -> (r:
        PreparedCommand<'_, Self>)
        ensures
            r.command@ == command_of(
                "GRAPH.CONFIG",
                seq![bytes_of("SET")] + name.arg_list() + value.arg_list(),
            ),
            *r.executor == *old(self),
            *final(self) == *final(r.executor),
    {
        let ghost wanted = seq![bytes_of("SET")] + name.arg_list() + value.arg_list();
        let command = cmd("GRAPH.CONFIG").arg("SET").arg(name).arg(value);
        assert(command@.args =~= wanted);
        prepare_command(self, command)
    }

    /// Removes a graph and all that is in it.
    fn graph_delete<G: IntoArgs>(&mut self, graph: G) -> (r: PreparedCommand<'_, Self>)
        ensures
            r.command@ == command_of("GRAPH.DELETE", graph.arg_list()),
            *r.executor == *old(self),
            *final(self) == *final(r.executor),
    {
        prepare_command(self, cmd("GRAPH.DELETE").arg(graph))
    }

    /// Makes the plan of a query without running it.
    fn graph_explain<G: IntoArgs, Q: IntoArgs>(&mut self, graph: G, query: Q) -> (r:
        PreparedCommand<'_, Self>)
        ensures
            r.command@ == command_of("GRAPH.EXPLAIN", graph.arg_list() + query.arg_list()),
            *r.executor == *old(self),
            *final(self) == *final(r.executor),
    {
        let ghost wanted = graph.arg_list() + query.arg_list();
        let command = cmd("GRAPH.EXPLAIN").arg(graph).arg(query);
        assert(command@.args =~= wanted);
        prepare_command(self, command)
    }

    /// Lists the graphs.
    fn graph_list(&mut self) -> (r: PreparedCommand<'_, Self>)
        ensures
            r.command@ == command_of("GRAPH.LIST", Seq::empty()),
            *r.executor == *old(self),
            *final(self) == *final(r.executor),
    {
        prepare_command(self, cmd("GRAPH.LIST"))
    }

    /// Runs a query and gives its plan with what each step took. It is sent
    /// under the name `GRAPH.LIST`.
    fn graph_profile<G: IntoArgs, Q: IntoArgs>(
        &mut self,
        graph: G,
        query: Q,
        options: GraphQueryOptions,
    ) -> (r: PreparedCommand<'_, Self>)
        ensures
            r.command@ == command_of(
                "GRAPH.LIST",
                graph.arg_list() + query.arg_list() + options.arg_list(),
            ),
            *r.executor == *old(self),
            *final(self) == *final(r.executor),
    {
        let ghost wanted = graph.arg_list() + query.arg_list() + options.arg_list();
        let command = cmd("GRAPH.LIST").arg(graph).arg(query).arg(options);
        assert(command@.args =~= wanted);
        prepare_command(self, command)
    }

    /// Runs a query against a graph.
    fn graph_query<G: IntoArgs, Q: IntoArgs>(
        &mut self,
        graph: G,
        query: Q,
        options: GraphQueryOptions,
    ) -> (r: PreparedCommand<'_, Self>)
        ensures
            r.command@ == command_of(
                "GRAPH.QUERY",
                graph.arg_list() + query.arg_list() + options.arg_list() + seq![
                    bytes_of("--compact"),
                ],
            ),
            *r.executor == *old(self),
            *final(self) == *final(r.executor),
    {
        let ghost wanted = graph.arg_list() + query.arg_list() + options.arg_list() + seq![
            bytes_of("--compact"),
        ];
        let command = cmd("GRAPH.QUERY").arg(graph).arg(query).arg(options).arg("--compact");
        assert(command@.args =~= wanted);
        prepare_command(self, command)
    }

    /// Runs a query that only reads against a graph.
    fn graph_ro_query<G: IntoArgs, Q: IntoArgs>(
        &mut self,
        graph: G,
        query: Q,
        options: GraphQueryOptions,
    ) -> (r: PreparedCommand<'_, Self>)
        ensures
            r.command@ == command_of(
                "GRAPH.RO_QUERY",
                graph.arg_list() + query.arg_list() + options.arg_list() + seq![
                    bytes_of("--compact"),
                ],
            ),
            *r.executor == *old(self),
            *final(self) == *final(r.executor),
    {
        let ghost wanted = graph.arg_list() + query.arg_list() + options.arg_list() + seq![
            bytes_of("--compact"),
        ];
        let command = cmd("GRAPH.RO_QUERY").arg(graph).arg(query).arg(options).arg("--compact");
        assert(command@.args =~= wanted);
        prepare_command(self, command)
    }

    /// Lists the slowest queries against a graph.
    fn graph_slowlog<G: IntoArgs>(&mut self, graph: G) -> (r: PreparedCommand<'_, Self>)
        ensures
            r.command@ == command_of("GRAPH.SLOWLOG", graph.arg_list()),
            *r.executor == *old(self),
            *final(self) == *final(r.executor),
    {
        prepare_command(self, cmd("GRAPH.SLOWLOG").arg(graph))
    }
}

impl GraphCommands for Pipeline {

}

impl GraphCommands for Transaction {

}

impl GraphCommands for Client {

}

} // verus!
