//! Reading what the cluster reports of its shards.

use vstd::prelude::*;
use crate::commands::server_commands::{read_text, require, required, text_field};
use crate::error::{Error, ErrorView, ParseTarget};
use crate::network::topology::{
    report_views, ClusterNodeResult, ClusterNodeView, ClusterShardResult, ClusterShardView,
};
use crate::resp::from_value::{
    collect, entries_of, entry_views, field, integer_of, items_of, lemma_collect_error,
    lemma_collect_step, lookup, to_entries, to_integer, to_items,
};
use crate::resp::text::bytes_of;
use crate::resp::value::{views, Value, ValueView};

verus! {

/// The slot or port that a reply stands for: its number, where that is one
/// of 16 bits without sign.
pub open spec fn u16_of(v: ValueView, target: ParseTarget) -> Result<u16, ErrorView> {
    match integer_of(v) {
        Ok(i) => if 0 <= i <= u16::MAX {
            Ok(i as u16)
        } else {
            Err(ErrorView::Parse(target))
        },
        Err(e) => Err(e),
    }
}

/// The port in the entry with the given key, if there is such an entry.
pub open spec fn port_field(entries: Seq<(Seq<u8>, ValueView)>, key: Seq<u8>) -> Result<
    Option<u16>,
    ErrorView,
> {
    match field(entries, key) {
        None => Ok(None),
        Some(v) => match u16_of(v, ParseTarget::ClusterNode) {
            Ok(port) => Ok(Some(port)),
            Err(e) => Err(e),
        },
    }
}

/// What a reply reports of one node: a dictionary with `id`, `ip` and
/// `role`, and with `port`, with `tls-port` or with both.
pub open spec fn node_report_of(v: ValueView) -> Result<ClusterNodeView, ErrorView> {
    let target = ParseTarget::ClusterNode;
    match entries_of(v) {
        Err(e) => Err(e),
        Ok(entries) => {
            let id = text_field(entries, bytes_of("id"), target);
            let port = port_field(entries, bytes_of("port"));
            let tls_port = port_field(entries, bytes_of("tls-port"));
            let ip = text_field(entries, bytes_of("ip"), target);
            let role = text_field(entries, bytes_of("role"), target);
            if id is Err {
                Err(id->Err_0)
            } else if port is Err {
                Err(port->Err_0)
            } else if tls_port is Err {
                Err(tls_port->Err_0)
            } else if ip is Err {
                Err(ip->Err_0)
            } else if role is Err {
                Err(role->Err_0)
            } else {
                Ok(
                    ClusterNodeView {
                        id: id->Ok_0,
                        port: port->Ok_0,
                        tls_port: tls_port->Ok_0,
                        ip: ip->Ok_0,
                        role: role->Ok_0,
                    },
                )
            }
        },
    }
}

/// The slot ranges that the values stand for, two by two: the lowest and
/// the highest slot of each range.
pub open spec fn slot_pairs(items: Seq<ValueView>) -> Result<Seq<(u16, u16)>, ErrorView>
    decreases items.len(),
{
    if items.len() == 0 {
        Ok(Seq::empty())
    } else if items.len() == 1 {
        Err(ErrorView::Parse(ParseTarget::ClusterShard))
    } else {
        match slot_pairs(items.take(items.len() - 2)) {
            Err(e) => Err(e),
            Ok(front) => match u16_of(items[items.len() - 2], ParseTarget::ClusterShard) {
                Err(e) => Err(e),
                Ok(low) => match u16_of(items.last(), ParseTarget::ClusterShard) {
                    Err(e) => Err(e),
                    Ok(high) => Ok(front.push((low, high))),
                },
            },
        }
    }
}

/// What a reply reports of one shard: a dictionary with `slots`, an array
/// of an even number of slots, and `nodes`, an array of nodes.
pub open spec fn shard_report_of(v: ValueView) -> Result<ClusterShardView, ErrorView> {
    let target = ParseTarget::ClusterShard;
    match entries_of(v) {
        Err(e) => Err(e),
        Ok(entries) => {
            let slots = match required(entries, bytes_of("slots"), target) {
                Err(e) => Err(e),
                Ok(s) => match items_of(s) {
                    Err(e) => Err(e),
                    Ok(items) => if items.len() % 2 == 0 {
                        slot_pairs(items)
                    } else {
                        Err(ErrorView::Parse(target))
                    },
                },
            };
            let nodes = match required(entries, bytes_of("nodes"), target) {
                Err(e) => Err(e),
                Ok(n) => match items_of(n) {
                    Err(e) => Err(e),
                    Ok(items) => collect(items, |item: ValueView| node_report_of(item)),
                },
            };
            if slots is Err {
                Err(slots->Err_0)
            } else if nodes is Err {
                Err(nodes->Err_0)
            } else {
                Ok(ClusterShardView { slots: slots->Ok_0, nodes: nodes->Ok_0 })
            }
        },
    }
}

/// What the reply to `CLUSTER SHARDS` reports: an array of shards.
pub open spec fn shard_reports_of(v: ValueView) -> Result<Seq<ClusterShardView>, ErrorView> {
    match items_of(v) {
        Err(e) => Err(e),
        Ok(items) => collect(items, |item: ValueView| shard_report_of(item)),
    }
}

/// Reads a reply as a slot or a port.
pub fn to_u16(value: &Value, target: ParseTarget) -> (r: Result<u16, Error>)
    ensures
        match u16_of(value@, target) {
            Ok(i) => r matches Ok(found) && found == i,
            Err(e) => r matches Err(f) && f@ == e,
        },
{
    match to_integer(value) {
        Ok(i) => if 0 <= i && i <= 0xffff {
            Ok(i as u16)
        } else {
            Err(Error::Parse(target))
        },
        Err(e) => Err(e),
    }
}

/// The port in the entry with the given key, if there is such an entry.
pub fn read_port(entries: &Vec<(Vec<u8>, Value)>, key: &str) -> (r: Result<Option<u16>, Error>)
    ensures
        match port_field(entry_views(entries@), bytes_of(key)) {
            Ok(port) => r matches Ok(found) && found == port,
            Err(e) => r matches Err(f) && f@ == e,
        },
{
    match lookup(entries, key) {
        None => Ok(None),
        Some(v) => match to_u16(v, ParseTarget::ClusterNode) {
            Ok(port) => Ok(Some(port)),
            Err(e) => Err(e),
        },
    }
}

/// The views of node reports.
pub open spec fn node_report_views(nodes: Seq<ClusterNodeResult>) -> Seq<ClusterNodeView> {
    nodes.map_values(|n: ClusterNodeResult| n@)
}

impl ClusterNodeResult {
    /// Reads the report of a node from a reply.
    pub fn from_value(value: &Value) -> (r: Result<ClusterNodeResult, Error>)
        ensures
            match node_report_of(value@) {
                Ok(n) => r matches Ok(found) && found@ == n,
                Err(e) => r matches Err(f) && f@ == e,
            },
    {
        let target = ParseTarget::ClusterNode;
        let entries = match to_entries(value) {
            Ok(entries) => entries,
            Err(e) => {
                return Err(e);
            },
        };
        let id = match read_text(&entries, "id", target) {
            Ok(x) => x,
            Err(e) => {
                return Err(e);
            },
        };
        let port = match read_port(&entries, "port") {
            Ok(x) => x,
            Err(e) => {
                return Err(e);
            },
        };
        let tls_port = match read_port(&entries, "tls-port") {
            Ok(x) => x,
            Err(e) => {
                return Err(e);
            },
        };
        let ip = match read_text(&entries, "ip", target) {
            Ok(x) => x,
            Err(e) => {
                return Err(e);
            },
        };
        let role = match read_text(&entries, "role", target) {
            Ok(x) => x,
            Err(e) => {
                return Err(e);
            },
        };
        Ok(ClusterNodeResult { id, port, tls_port, ip, role })
    }
}

/// An error met among the first slots is the error of the whole.
pub proof fn lemma_slot_pairs_error(items: Seq<ValueView>, k: int)
    requires
        0 <= k <= items.len(),
        k % 2 == 0,
        items.len() % 2 == 0,
        slot_pairs(items.take(k)) is Err,
    ensures
        slot_pairs(items) == slot_pairs(items.take(k)),
    decreases items.len() - k,
{
    if k < items.len() {
        let next = items.take(k + 2);
        assert(next.take(next.len() - 2) =~= items.take(k));
        lemma_slot_pairs_error(items, k + 2);
    } else {
        assert(items.take(k) =~= items);
    }
}

/// Reads slot ranges from the values of an array.
pub fn read_slots(value: &Value) -> (r: Result<Vec<(u16, u16)>, Error>)
    ensures
        match (match items_of(value@) {
            Err(e) => Err(e),
            Ok(items) => if items.len() % 2 == 0 {
                slot_pairs(items)
            } else {
                Err(ErrorView::Parse(ParseTarget::ClusterShard))
            },
        }) {
            Ok(slots) => r matches Ok(found) && found@ == slots,
            Err(e) => r matches Err(f) && f@ == e,
        },
{
    let target = ParseTarget::ClusterShard;
    let mut out: Vec<(u16, u16)> = Vec::new();
    let items = match to_items(value) {
        Ok(Some(items)) => items,
        Ok(None) => {
            return Ok(out);
        },
        Err(e) => {
            return Err(e);
        },
    };
    if items.len() % 2 != 0 {
        return Err(Error::Parse(target));
    }
    let ghost all = views(items@);
    let mut i: usize = 0;
    assert(all.take(0) =~= Seq::<ValueView>::empty());
    while i < items.len()
        invariant
            i <= items.len(),
            i % 2 == 0,
            items.len() % 2 == 0,
            all == views(items@),
            items_of(value@) == Ok::<Seq<ValueView>, ErrorView>(all),
            slot_pairs(all.take(i as int)) == Ok::<Seq<(u16, u16)>, ErrorView>(out@),
        decreases items.len() - i,
    {
        let ghost next = all.take(i + 2);
        proof {
            assert(all.len() == items@.len());
            assert(next.len() == i + 2);
            assert(next.take(next.len() - 2) =~= all.take(i as int));
            assert(slot_pairs(next.take(next.len() - 2)) == Ok::<Seq<(u16, u16)>, ErrorView>(
                out@,
            ));
            assert(next[next.len() - 2] == items@[i as int]@);
            assert(next.last() == items@[i + 1]@);
        }
        let low = match to_u16(&items[i], ParseTarget::ClusterShard) {
            Ok(x) => x,
            Err(e) => {
                proof {
                    assert(slot_pairs(next) == Err::<Seq<(u16, u16)>, ErrorView>(e@));
                    lemma_slot_pairs_error(all, i + 2);
                }
                return Err(e);
            },
        };
        let high = match to_u16(&items[i + 1], ParseTarget::ClusterShard) {
            Ok(x) => x,
            Err(e) => {
                proof {
                    assert(slot_pairs(next) == Err::<Seq<(u16, u16)>, ErrorView>(e@));
                    lemma_slot_pairs_error(all, i + 2);
                }
                return Err(e);
            },
        };
        assert(slot_pairs(next) == Ok::<Seq<(u16, u16)>, ErrorView>(out@.push((low, high))));
        out.push((low, high));
        i = i + 2;
    }
    assert(all.take(items.len() as int) =~= all);
    Ok(out)
}

/// Reads node reports from the values of an array.
pub fn read_nodes(value: &Value) -> (r: Result<Vec<ClusterNodeResult>, Error>)
    ensures
        match (match items_of(value@) {
            Err(e) => Err(e),
            Ok(items) => collect(items, |item: ValueView| node_report_of(item)),
        }) {
            Ok(nodes) => r matches Ok(found) && node_report_views(found@) == nodes,
            Err(e) => r matches Err(f) && f@ == e,
        },
{
    let mut out: Vec<ClusterNodeResult> = Vec::new();
    assert(node_report_views(out@) =~= Seq::<ClusterNodeView>::empty());
    let items = match to_items(value) {
        Ok(Some(items)) => items,
        Ok(None) => {
            return Ok(out);
        },
        Err(e) => {
            return Err(e);
        },
    };
    let ghost all = views(items@);
    let ghost f = |item: ValueView| node_report_of(item);
    let mut i: usize = 0;
    assert(all.take(0) =~= Seq::<ValueView>::empty());
    while i < items.len()
        invariant
            i <= items.len(),
            all == views(items@),
            items_of(value@) == Ok::<Seq<ValueView>, ErrorView>(all),
            f == (|item: ValueView| node_report_of(item)),
            collect(all.take(i as int), f) == Ok::<Seq<ClusterNodeView>, ErrorView>(
                node_report_views(out@),
            ),
        decreases items.len() - i,
    {
        proof {
            lemma_collect_step(all, f, i as int);
        }
        match ClusterNodeResult::from_value(&items[i]) {
            Ok(node) => {
                assert(node_report_views(out@.push(node)) =~= node_report_views(out@).push(node@));
                out.push(node);
            },
            Err(e) => {
                proof {
                    lemma_collect_error(all, f, i + 1);
                }
                return Err(e);
            },
        }
        i = i + 1;
    }
    assert(all.take(items.len() as int) =~= all);
    Ok(out)
}

impl ClusterShardResult {
    /// Reads the report of a shard from a reply.
    pub fn from_value(value: &Value) -> (r: Result<ClusterShardResult, Error>)
        ensures
            match shard_report_of(value@) {
                Ok(s) => r matches Ok(found) && found@ == s,
                Err(e) => r matches Err(f) && f@ == e,
            },
    {
        let target = ParseTarget::ClusterShard;
        let entries = match to_entries(value) {
            Ok(entries) => entries,
            Err(e) => {
                return Err(e);
            },
        };
        let slots = match require(&entries, "slots", target) {
            Ok(s) => match read_slots(s) {
                Ok(s) => s,
                Err(e) => {
                    return Err(e);
                },
            },
            Err(e) => {
                return Err(e);
            },
        };
        let nodes = match require(&entries, "nodes", target) {
            Ok(n) => match read_nodes(n) {
                Ok(n) => n,
                Err(e) => {
                    return Err(e);
                },
            },
            Err(e) => {
                return Err(e);
            },
        };
        let r = ClusterShardResult { slots, nodes };
        assert(r@.nodes =~= node_report_views(r.nodes@));
        Ok(r)
    }
}

/// Reads the reply to `CLUSTER SHARDS`.
pub fn cluster_shards(reply: &Value) -> (r: Result<Vec<ClusterShardResult>, Error>)
    ensures
        match shard_reports_of(reply@) {
            Ok(shards) => r matches Ok(found) && report_views(found@) == shards,
            Err(e) => r matches Err(f) && f@ == e,
        },
{
    let mut out: Vec<ClusterShardResult> = Vec::new();
    assert(report_views(out@) =~= Seq::<ClusterShardView>::empty());
    let items = match to_items(reply) {
        Ok(Some(items)) => items,
        Ok(None) => {
            return Ok(out);
        },
        Err(e) => {
            return Err(e);
        },
    };
    let ghost all = views(items@);
    let ghost f = |item: ValueView| shard_report_of(item);
    let mut i: usize = 0;
    assert(all.take(0) =~= Seq::<ValueView>::empty());
    while i < items.len()
        invariant
            i <= items.len(),
            all == views(items@),
            items_of(reply@) == Ok::<Seq<ValueView>, ErrorView>(all),
            f == (|item: ValueView| shard_report_of(item)),
            collect(all.take(i as int), f) == Ok::<Seq<ClusterShardView>, ErrorView>(
                report_views(out@),
            ),
        decreases items.len() - i,
    {
        proof {
            lemma_collect_step(all, f, i as int);
        }
        match ClusterShardResult::from_value(&items[i]) {
            Ok(shard) => {
                assert(report_views(out@.push(shard)) =~= report_views(out@).push(shard@));
                out.push(shard);
            },
            Err(e) => {
                proof {
                    lemma_collect_error(all, f, i + 1);
                }
                return Err(e);
            },
        }
        i = i + 1;
    }
    assert(all.take(items.len() as int) =~= all);
    Ok(out)
}

} // verus!
