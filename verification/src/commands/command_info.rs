//! The entry of one command in the server's own description of its
//! commands.

use vstd::prelude::*;
use crate::commands::server_commands::{
    key_specification_of, tip_of, CommandTip, KeySpecification, KeySpecificationView,
};
use crate::error::{Error, ErrorView, ParseTarget};
use crate::resp::command::byte_strings;
use crate::resp::from_value::{
    collect, isize_of, items_of, lemma_collect_error, lemma_collect_step, text_of, texts_of,
    to_isize, to_items, to_text, to_texts, to_usize, usize_of,
};
use crate::resp::value::{views, Value, ValueView};

verus! {

/// What the server tells of one command.
#[derive(Debug, PartialEq, Eq)]
pub struct CommandInfo {
    /// The name of the command in lower case.
    pub name: Vec<u8>,
    /// The number of arguments, the name counted: exact where positive, a
    /// minimum where negative.
    pub arity: isize,
    /// The flags of the command.
    pub flags: Vec<Vec<u8>>,
    /// The position of the first key; 0 where the command takes no key.
    pub first_key: usize,
    /// The position of the last key.
    pub last_key: isize,
    /// The step from one key to the next.
    pub step: usize,
    /// The ACL categories of the command.
    pub acl_categories: Vec<Vec<u8>>,
    /// The tips on the command.
    pub command_tips: Vec<CommandTip>,
    /// The rules on where the keys of the command are.
    pub key_specifications: Vec<KeySpecification>,
    /// The entries of the sub-commands.
    pub sub_commands: Vec<CommandInfo>,
}

/// Mathematical form of a [`CommandInfo`].
pub struct CommandInfoView {
    pub name: Seq<u8>,
    pub arity: isize,
    pub flags: Seq<Seq<u8>>,
    pub first_key: usize,
    pub last_key: isize,
    pub step: usize,
    pub acl_categories: Seq<Seq<u8>>,
    pub command_tips: Seq<CommandTip>,
    pub key_specifications: Seq<KeySpecificationView>,
    pub sub_commands: Seq<CommandInfoView>,
}

/// The views of key specifications.
pub open spec fn key_specification_views(specs: Seq<KeySpecification>) -> Seq<
    KeySpecificationView,
> {
    specs.map_values(|k: KeySpecification| k@)
}

/// The views of entries, entry by entry.
pub open spec fn info_views(infos: Seq<CommandInfo>) -> Seq<CommandInfoView>
    decreases infos,
{
    Seq::new(
        infos.len(),
        |i: int|
            if 0 <= i < infos.len() {
                info_view(infos[i])
            } else {
                arbitrary()
            },
    )
}

/// The view of one entry.
pub open spec fn info_view(info: CommandInfo) -> CommandInfoView
    decreases info,
{
    CommandInfoView {
        name: info.name@,
        arity: info.arity,
        flags: byte_strings(info.flags@),
        first_key: info.first_key,
        last_key: info.last_key,
        step: info.step,
        acl_categories: byte_strings(info.acl_categories@),
        command_tips: info.command_tips@,
        key_specifications: key_specification_views(info.key_specifications@),
        sub_commands: info_views(info.sub_commands@),
    }
}

impl View for CommandInfo {
    type V = CommandInfoView;

    open spec fn view(&self) -> CommandInfoView {
        info_view(*self)
    }
}

/// The views of a sequence with one more entry at its end.
pub proof fn lemma_info_views_push(infos: Seq<CommandInfo>, last: CommandInfo)
    ensures
        info_views(infos.push(last)) == info_views(infos).push(last@),
{
    assert(info_views(infos.push(last)) =~= info_views(infos).push(last@));
}

/// The values in a reply are smaller than the reply.
pub proof fn lemma_items_decrease(v: ValueView, i: int)
    requires
        items_of(v) is Ok,
        0 <= i < items_of(v)->Ok_0.len(),
    ensures
        decreases_to!(v => items_of(v)->Ok_0[i]),
{
}

/// The tips that a reply holds in a row.
pub open spec fn tips_of(v: ValueView) -> Result<Seq<CommandTip>, ErrorView> {
    match items_of(v) {
        Ok(items) => collect(items, |item: ValueView| tip_of(item)),
        Err(e) => Err(e),
    }
}

/// The key specifications that a reply holds in a row.
pub open spec fn key_specifications_of(v: ValueView) -> Result<
    Seq<KeySpecificationView>,
    ErrorView,
> {
    match items_of(v) {
        Ok(items) => collect(items, |item: ValueView| key_specification_of(item)),
        Err(e) => Err(e),
    }
}

/// The entry that a reply stands for: an array of six fields (name, arity,
/// flags, first key, last key, step), of seven (with the ACL categories) or
/// of ten and more (with tips, key specifications and sub-commands).
pub open spec fn command_info_of(v: ValueView) -> Result<CommandInfoView, ErrorView>
    decreases v, 0nat, 0nat,
{
    match items_of(v) {
        Err(e) => Err(e),
        Ok(items) => if items.len() >= 10 || items.len() == 7 || items.len() == 6 {
            let name = text_of(items[0]);
            let arity = isize_of(items[1]);
            let flags = texts_of(items[2]);
            let first_key = usize_of(items[3]);
            let last_key = isize_of(items[4]);
            let step = usize_of(items[5]);
            let acl_categories = if items.len() >= 7 {
                texts_of(items[6])
            } else {
                Ok(Seq::empty())
            };
            let command_tips = if items.len() >= 10 {
                tips_of(items[7])
            } else {
                Ok(Seq::empty())
            };
            let key_specifications = if items.len() >= 10 {
                key_specifications_of(items[8])
            } else {
                Ok(Seq::empty())
            };
            let sub_commands = if items.len() >= 10 {
                proof {
                    lemma_items_decrease(v, 9);
                }
                command_infos_of(items[9])
            } else {
                Ok(Seq::empty())
            };
            if name is Err {
                Err(name->Err_0)
            } else if arity is Err {
                Err(arity->Err_0)
            } else if flags is Err {
                Err(flags->Err_0)
            } else if first_key is Err {
                Err(first_key->Err_0)
            } else if last_key is Err {
                Err(last_key->Err_0)
            } else if step is Err {
                Err(step->Err_0)
            } else if acl_categories is Err {
                Err(acl_categories->Err_0)
            } else if command_tips is Err {
                Err(command_tips->Err_0)
            } else if key_specifications is Err {
                Err(key_specifications->Err_0)
            } else if sub_commands is Err {
                Err(sub_commands->Err_0)
            } else {
                Ok(
                    CommandInfoView {
                        name: name->Ok_0,
                        arity: arity->Ok_0,
                        flags: flags->Ok_0,
                        first_key: first_key->Ok_0,
                        last_key: last_key->Ok_0,
                        step: step->Ok_0,
                        acl_categories: acl_categories->Ok_0,
                        command_tips: command_tips->Ok_0,
                        key_specifications: key_specifications->Ok_0,
                        sub_commands: sub_commands->Ok_0,
                    },
                )
            }
        } else {
            Err(ErrorView::Parse(ParseTarget::CommandInfo))
        },
    }
}

/// The entries that the first `n` values of a reply stand for, or the error
/// of the first that stands for none.
pub open spec fn command_infos_upto(v: ValueView, n: nat) -> Result<Seq<CommandInfoView>, ErrorView>
    decreases v, 1nat, n,
{
    match items_of(v) {
        Err(e) => Err(e),
        Ok(items) => if n == 0 || n > items.len() {
            Ok(Seq::empty())
        } else {
            match command_infos_upto(v, (n - 1) as nat) {
                Err(e) => Err(e),
                Ok(front) => {
                    proof {
                        lemma_items_decrease(v, n - 1);
                    }
                    match command_info_of(items[n - 1]) {
                        Err(e) => Err(e),
                        Ok(info) => Ok(front.push(info)),
                    }
                },
            }
        },
    }
}

/// The entries that a reply holds in a row.
pub open spec fn command_infos_of(v: ValueView) -> Result<Seq<CommandInfoView>, ErrorView>
    decreases v, 2nat, 0nat,
{
    match items_of(v) {
        Err(e) => Err(e),
        Ok(items) => command_infos_upto(v, items.len()),
    }
}

/// An error met among the first entries is the error of the whole.
pub proof fn lemma_infos_error(v: ValueView, k: nat, n: nat)
    requires
        items_of(v) is Ok,
        k <= n <= items_of(v)->Ok_0.len(),
        command_infos_upto(v, k) is Err,
    ensures
        command_infos_upto(v, n) == command_infos_upto(v, k),
    decreases n - k,
{
    if k < n {
        lemma_infos_error(v, k, (n - 1) as nat);
    }
}

/// Reads tips in a row from a reply.
pub fn read_tips(value: &Value) -> (r: Result<Vec<CommandTip>, Error>)
    ensures
        match tips_of(value@) {
            Ok(t) => r matches Ok(found) && found@ == t,
            Err(e) => r matches Err(f) && f@ == e,
        },
{
    let items = match to_items(value) {
        Ok(Some(items)) => items,
        Ok(None) => {
            return Ok(Vec::new());
        },
        Err(e) => {
            return Err(e);
        },
    };
    let ghost all = views(items@);
    let ghost f = |item: ValueView| tip_of(item);
    let mut out: Vec<CommandTip> = Vec::new();
    let mut i: usize = 0;
    assert(all.take(0) =~= Seq::<ValueView>::empty());
    while i < items.len()
        invariant
            i <= items.len(),
            all == views(items@),
            items_of(value@) == Ok::<Seq<ValueView>, ErrorView>(all),
            f == (|item: ValueView| tip_of(item)),
            collect(all.take(i as int), f) == Ok::<Seq<CommandTip>, ErrorView>(out@),
        decreases items.len() - i,
    {
        proof {
            lemma_collect_step(all, f, i as int);
        }
        match CommandTip::read(&items[i]) {
            Ok(tip) => {
                out.push(tip);
            },
            Err(e) => {
                proof {
                    lemma_collect_error(all, f, i + 1);
                }
                return Err(e);
            },
        }
        i = i + 1;
    }
    assert(all.take(items.len() as int) =~= all);
    Ok(out)
}

/// Reads key specifications in a row from a reply.
pub fn read_key_specifications(value: &Value) -> (r: Result<Vec<KeySpecification>, Error>)
    ensures
        match key_specifications_of(value@) {
            Ok(k) => r matches Ok(found) && key_specification_views(found@) == k,
            Err(e) => r matches Err(f) && f@ == e,
        },
{
    let mut out: Vec<KeySpecification> = Vec::new();
    assert(key_specification_views(out@) =~= Seq::<KeySpecificationView>::empty());
    let items = match to_items(value) {
        Ok(Some(items)) => items,
        Ok(None) => {
            return Ok(out);
        },
        Err(e) => {
            return Err(e);
        },
    };
    let ghost all = views(items@);
    let ghost f = |item: ValueView| key_specification_of(item);
    let mut i: usize = 0;
    assert(all.take(0) =~= Seq::<ValueView>::empty());
    while i < items.len()
        invariant
            i <= items.len(),
            all == views(items@),
            items_of(value@) == Ok::<Seq<ValueView>, ErrorView>(all),
            f == (|item: ValueView| key_specification_of(item)),
            collect(all.take(i as int), f) == Ok::<Seq<KeySpecificationView>, ErrorView>(
                key_specification_views(out@),
            ),
        decreases items.len() - i,
    {
        proof {
            lemma_collect_step(all, f, i as int);
        }
        match KeySpecification::read(&items[i]) {
            Ok(spec) => {
                assert(key_specification_views(out@.push(spec)) =~= key_specification_views(
                    out@,
                ).push(spec@));
                out.push(spec);
            },
            Err(e) => {
                proof {
                    lemma_collect_error(all, f, i + 1);
                }
                return Err(e);
            },
        }
        i = i + 1;
    }
    assert(all.take(items.len() as int) =~= all);
    Ok(out)
}

impl CommandInfo {
    /// Reads the entry of a command from a reply.
    pub fn from_value(value: Value) -> (r: Result<CommandInfo, Error>)
        ensures
            match command_info_of(value@) {
                Ok(info) => r matches Ok(found) && found@ == info,
                Err(e) => r matches Err(f) && f@ == e,
            },
    {
        CommandInfo::read(&value)
    }

    /// Reads the entry of a command from a reply.
    pub fn read(value: &Value) -> (r: Result<CommandInfo, Error>)
        ensures
            match command_info_of(value@) {
                Ok(info) => r matches Ok(found) && found@ == info,
                Err(e) => r matches Err(f) && f@ == e,
            },
        decreases value,
    {
        let items = match to_items(value) {
            Ok(Some(items)) => items,
            Ok(None) => {
                return Err(Error::Parse(ParseTarget::CommandInfo));
            },
            Err(e) => {
                return Err(e);
            },
        };
        let n = items.len();
        if !(n >= 10 || n == 7 || n == 6) {
            return Err(Error::Parse(ParseTarget::CommandInfo));
        }
        let name = match to_text(&items[0]) {
            Ok(x) => x,
            Err(e) => {
                return Err(e);
            },
        };
        let arity = match to_isize(&items[1]) {
            Ok(x) => x,
            Err(e) => {
                return Err(e);
            },
        };
        let flags = match to_texts(&items[2]) {
            Ok(x) => x,
            Err(e) => {
                return Err(e);
            },
        };
        let first_key = match to_usize(&items[3]) {
            Ok(x) => x,
            Err(e) => {
                return Err(e);
            },
        };
        let last_key = match to_isize(&items[4]) {
            Ok(x) => x,
            Err(e) => {
                return Err(e);
            },
        };
        let step = match to_usize(&items[5]) {
            Ok(x) => x,
            Err(e) => {
                return Err(e);
            },
        };
        let acl_categories = if n >= 7 {
            match to_texts(&items[6]) {
                Ok(x) => x,
                Err(e) => {
                    return Err(e);
                },
            }
        } else {
            let none: Vec<Vec<u8>> = Vec::new();
            assert(byte_strings(none@) =~= Seq::<Seq<u8>>::empty());
            none
        };
        let command_tips = if n >= 10 {
            match read_tips(&items[7]) {
                Ok(x) => x,
                Err(e) => {
                    return Err(e);
                },
            }
        } else {
            Vec::new()
        };
        let key_specifications = if n >= 10 {
            match read_key_specifications(&items[8]) {
                Ok(x) => x,
                Err(e) => {
                    return Err(e);
                },
            }
        } else {
            let none: Vec<KeySpecification> = Vec::new();
            assert(key_specification_views(none@) =~= Seq::<KeySpecificationView>::empty());
            none
        };
        let sub_commands = if n >= 10 {
            match read_command_infos(&items[9]) {
                Ok(x) => x,
                Err(e) => {
                    return Err(e);
                },
            }
        } else {
            let none: Vec<CommandInfo> = Vec::new();
            assert(info_views(none@) =~= Seq::<CommandInfoView>::empty());
            none
        };
        Ok(
            CommandInfo {
                name,
                arity,
                flags,
                first_key,
                last_key,
                step,
                acl_categories,
                command_tips,
                key_specifications,
                sub_commands,
            },
        )
    }
}

/// Reads the entries of commands in a row from a reply.
pub fn read_command_infos(value: &Value) -> (r: Result<Vec<CommandInfo>, Error>)
    ensures
        match command_infos_of(value@) {
            Ok(infos) => r matches Ok(found) && info_views(found@) == infos,
            Err(e) => r matches Err(f) && f@ == e,
        },
    decreases value,
{
    let mut out: Vec<CommandInfo> = Vec::new();
    assert(info_views(out@) =~= Seq::<CommandInfoView>::empty());
    let items = match to_items(value) {
        Ok(Some(items)) => items,
        Ok(None) => {
            return Ok(out);
        },
        Err(e) => {
            return Err(e);
        },
    };
    let mut i: usize = 0;
    while i < items.len()
        invariant
            i <= items.len(),
            items_of(value@) == Ok::<Seq<ValueView>, ErrorView>(views(items@)),
            *value == Value::Array(Some(*items)) || *value == Value::Unordered(*items) || *value
                == Value::Push(*items),
            command_infos_upto(value@, i as nat) == Ok::<Seq<CommandInfoView>, ErrorView>(
                info_views(out@),
            ),
        decreases items.len() - i,
    {
        match CommandInfo::read(&items[i]) {
            Ok(info) => {
                proof {
                    lemma_info_views_push(out@, info);
                }
                out.push(info);
            },
            Err(e) => {
                proof {
                    lemma_infos_error(value@, (i + 1) as nat, items.len() as nat);
                }
                return Err(e);
            },
        }
        i = i + 1;
    }
    Ok(out)
}

} // verus!
