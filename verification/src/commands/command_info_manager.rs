//! The command catalog: what is known of every command of the server, and
//! with it the keys of a command and the command rewritten for some of its
//! keys.

use vstd::prelude::*;
use crate::commands::command_info::{
    command_infos_of, info_views, read_command_infos, CommandInfo, CommandInfoView,
};
use crate::commands::server_commands::{
    BeginSearch, BeginSearchView, CommandTip, FindKeys, KeySpecification, KeySpecificationView,
    RequestPolicy, ResponsePolicy,
};
use crate::error::{Error, ErrorView};
use crate::network::hash_slot::{key_list, KeyList};
use crate::resp::command::{Command, CommandArgs, CommandView};
use crate::resp::decimal::{i64_value, parse_i64};
use crate::resp::text::{bytes_eq, copy_bytes};
use crate::resp::value::Value;

verus! {

/// The byte `|`, between the name of a command and that of a sub-command.
pub const BAR: u8 = 124;

/// The byte in lower case.
pub open spec fn lower_byte(b: u8) -> u8 {
    if 65 <= b <= 90 {
        (b + 32) as u8
    } else {
        b
    }
}

/// The text in lower case.
pub open spec fn lower(s: Seq<u8>) -> Seq<u8> {
    s.map_values(|b: u8| lower_byte(b))
}

/// The text in lower case.
pub fn to_lower(s: &[u8]) -> (r: Vec<u8>)
    ensures
        r@ == lower(s@),
{
    let mut out: Vec<u8> = Vec::new();
    let mut i: usize = 0;
    while i < s.len()
        invariant
            i <= s.len(),
            out@ == lower(s@).take(i as int),
        decreases s.len() - i,
    {
        let b = s[i];
        out.push(if 65 <= b && b <= 90 { b + 32 } else { b });
        assert(lower(s@).take(i + 1) =~= lower(s@).take(i as int).push(lower_byte(s@[i as int])));
        i = i + 1;
    }
    assert(lower(s@).take(s.len() as int) =~= lower(s@));
    out
}

/// The words of a command: its name, then its arguments.
pub open spec fn words(c: CommandView) -> Seq<Seq<u8>> {
    seq![c.name] + c.args
}

/// The index of the last entry with the given name, or -1.
pub open spec fn last_named(infos: Seq<CommandInfoView>, name: Seq<u8>) -> int
    decreases infos.len(),
{
    if infos.len() == 0 {
        -1
    } else if infos.last().name == name {
        infos.len() - 1
    } else {
        last_named(infos.drop_last(), name)
    }
}

/// The index of the last entry with the given name.
pub fn find_named(infos: &Vec<CommandInfo>, name: &[u8]) -> (r: Option<usize>)
    ensures
        match r {
            Some(i) => i == last_named(info_views(infos@), name@) && i < infos@.len(),
            None => last_named(info_views(infos@), name@) == -1,
        },
{
    let ghost all = info_views(infos@);
    let mut i: usize = infos.len();
    assert(all.take(i as int) =~= all);
    while i > 0
        invariant
            i <= infos.len(),
            all == info_views(infos@),
            last_named(all, name@) == last_named(all.take(i as int), name@),
        decreases i,
    {
        proof {
            assert(all.take(i as int).drop_last() =~= all.take(i - 1));
        }
        if bytes_eq(infos[i - 1].name.as_slice(), name) {
            return Some(i - 1);
        }
        i = i - 1;
    }
    None
}

/// The entry with the given name: one of the entries of the catalog, or,
/// for a name `command|sub-command`, that sub-command of the entry named
/// `command`.
pub open spec fn entry_named(infos: Seq<CommandInfoView>, name: Seq<u8>) -> Option<CommandInfoView> {
    let at = last_named(infos, name);
    let bar = crate::resp::text::find_byte(name, BAR, 0);
    let parent = last_named(infos, name.take(bar));
    if at >= 0 {
        Some(infos[at])
    } else if bar < name.len() && parent >= 0 {
        let sub = last_named(infos[parent].sub_commands, name);
        if sub >= 0 {
            Some(infos[parent].sub_commands[sub])
        } else {
            None
        }
    } else {
        None
    }
}

/// The entry that answers for a command: the entry with the name of the
/// command in lower case, or, where that entry has a sub-command named
/// `name|argument` after the first argument, that sub-command.
pub open spec fn info_for(infos: Seq<CommandInfoView>, c: CommandView) -> Option<CommandInfoView> {
    let at = last_named(infos, lower(c.name));
    if at < 0 {
        None
    } else if c.args.len() == 0 {
        Some(infos[at])
    } else {
        let sub = last_named(
            infos[at].sub_commands,
            lower(c.name) + seq![BAR] + lower(c.args[0]),
        );
        if sub < 0 {
            Some(infos[at])
        } else {
            Some(infos[at].sub_commands[sub])
        }
    }
}

/// What a key specification says of a command.
pub enum KeySpan {
    /// Nothing: the server has to be asked for the keys.
    AskServer,
    /// The keys stand at `first`, `first + step` and so on up to `last`.
    Span { first: int, last: int, step: int },
    /// `count` keys stand at `first`, `first + step` and so on.
    Counted { first: int, count: int, step: int },
}

/// The position after the first word at or after `from` that is the
/// keyword, letter case aside; 0 where there is none.
pub open spec fn search_up(argv: Seq<Seq<u8>>, keyword: Seq<u8>, from: int) -> int
    decreases argv.len() - from,
{
    if from < 1 || from >= argv.len() {
        0
    } else if lower(argv[from]) == lower(keyword) {
        from + 1
    } else {
        search_up(argv, keyword, from + 1)
    }
}

/// The position after the last word at or before `from` that is the
/// keyword, letter case aside; 0 where there is none.
pub open spec fn search_down(argv: Seq<Seq<u8>>, keyword: Seq<u8>, from: int) -> int
    decreases from,
{
    if from < 1 || from >= argv.len() {
        0
    } else if lower(argv[from]) == lower(keyword) {
        from + 1
    } else {
        search_down(argv, keyword, from - 1)
    }
}

/// The position of the first key; 0 where the keyword is not found, `None`
/// where the server gives no rule.
pub open spec fn begin_position(b: BeginSearchView, argv: Seq<Seq<u8>>) -> Option<int> {
    match b {
        BeginSearchView::Index(pos) => Some(pos as int),
        BeginSearchView::Keyword { keyword, start_from } => if start_from >= 0 {
            Some(search_up(argv, keyword, start_from as int))
        } else {
            Some(search_down(argv, keyword, argv.len() + start_from))
        },
        BeginSearchView::Unknown => None,
    }
}

/// The positions of the keys that one specification gives for the words of
/// a command. A span that starts before position 1 or ends after the last
/// word holds no key.
pub open spec fn key_span(spec: KeySpecificationView, argv: Seq<Seq<u8>>) -> KeySpan {
    let argc = argv.len() as int;
    match begin_position(spec.begin_search, argv) {
        None => KeySpan::AskServer,
        Some(first) => match spec.find_keys {
            FindKeys::Unknown => KeySpan::AskServer,
            FindKeys::Range { last_key, key_step, limit } => KeySpan::Span {
                first,
                last: if last_key >= 0 {
                    first + last_key
                } else if limit <= 0 {
                    argc + last_key
                } else if first <= argc {
                    first + (argc - first) / (limit as int) + last_key
                } else {
                    first + last_key
                },
                step: key_step as int,
            },
            FindKeys::KeyEnum { key_num_idx, first_key, key_step } => if 1 <= first
                && 0 <= key_num_idx && first + key_num_idx < argc {
                match i64_value(argv[first + key_num_idx]) {
                    Some(count) => KeySpan::Counted {
                        first: first + first_key,
                        count: count as int,
                        step: key_step as int,
                    },
                    None => KeySpan::Counted { first: 1, count: 0, step: 1 },
                }
            } else {
                KeySpan::Counted { first: 1, count: 0, step: 1 }
            },
        },
    }
}

/// The span of the keys by the three positions that older servers give: no
/// key where the first position is 0; a negative last position counts from
/// the last word.
pub open spec fn legacy_span(info: CommandInfoView, argv: Seq<Seq<u8>>) -> KeySpan {
    KeySpan::Span {
        first: info.first_key as int,
        last: if info.last_key >= 0 {
            info.last_key as int
        } else {
            argv.len() + info.last_key
        },
        step: info.step as int,
    }
}

/// The span is within the words of the command and holds at least one key.
pub open spec fn span_in_bounds(first: int, last: int, step: int, argc: int) -> bool {
    1 <= first <= last < argc && step >= 1
}

/// The words at `first`, `first + step` and so on up to `last`.
pub open spec fn words_at(argv: Seq<Seq<u8>>, first: int, last: int, step: int) -> Seq<Seq<u8>>
    decreases
            (if first <= last {
                last - first + 1
            } else {
                0
            }),
{
    if step < 1 || first > last || first < 0 || first >= argv.len() {
        Seq::empty()
    } else {
        seq![argv[first]] + words_at(argv, first + step, last, step)
    }
}

/// `count` words at `first`, `first + step` and so on; `None` where one of
/// the positions is before position 1 or after the last word.
pub open spec fn words_counted(argv: Seq<Seq<u8>>, first: int, count: int, step: int) -> Option<
    Seq<Seq<u8>>,
>
    decreases count,
{
    if count <= 0 {
        Some(Seq::empty())
    } else if first < 1 || first >= argv.len() {
        None
    } else {
        match words_counted(argv, first + step, count - 1, step) {
            None => None,
            Some(rest) => Some(seq![argv[first]] + rest),
        }
    }
}

/// The keys that a span holds; `None` where the server has to be asked.
pub open spec fn span_keys(span: KeySpan, argv: Seq<Seq<u8>>) -> Option<Seq<Seq<u8>>> {
    match span {
        KeySpan::AskServer => None,
        KeySpan::Span { first, last, step } => if span_in_bounds(first, last, step, argv.len() as int) {
            Some(words_at(argv, first, last, step))
        } else {
            Some(Seq::empty())
        },
        KeySpan::Counted { first, count, step } => if step >= 1 {
            match words_counted(argv, first, count, step) {
                Some(keys) => Some(keys),
                None => Some(Seq::empty()),
            }
        } else {
            Some(Seq::empty())
        },
    }
}

/// The keys that the first `n` specifications give, in order; `None` where
/// one of them leaves it to the server.
pub open spec fn keys_by_specifications(
    specs: Seq<KeySpecificationView>,
    argv: Seq<Seq<u8>>,
    n: int,
) -> Option<Seq<Seq<u8>>>
    decreases n,
{
    if n <= 0 {
        Some(Seq::empty())
    } else {
        match keys_by_specifications(specs, argv, n - 1) {
            None => None,
            Some(front) => match span_keys(key_span(specs[n - 1], argv), argv) {
                None => None,
                Some(keys) => Some(front + keys),
            },
        }
    }
}

/// The keys of a command by its entry: those that its key specifications
/// give, or, where it has none, those of the three older positions. `None`
/// where the server has to be asked.
pub open spec fn keys_of(info: CommandInfoView, c: CommandView) -> Option<Seq<Seq<u8>>> {
    if info.key_specifications.len() == 0 {
        span_keys(legacy_span(info, words(c)), words(c))
    } else {
        keys_by_specifications(
            info.key_specifications,
            words(c),
            info.key_specifications.len() as int,
        )
    }
}

/// The first request policy among the tips.
pub open spec fn request_policy_of(tips: Seq<CommandTip>) -> Option<RequestPolicy>
    decreases tips.len(),
{
    if tips.len() == 0 {
        None
    } else {
        match tips[0] {
            CommandTip::RequestPolicy(p) => Some(p),
            _ => request_policy_of(tips.drop_first()),
        }
    }
}

/// The first response policy among the tips.
pub open spec fn response_policy_of(tips: Seq<CommandTip>) -> Option<ResponsePolicy>
    decreases tips.len(),
{
    if tips.len() == 0 {
        None
    } else {
        match tips[0] {
            CommandTip::ResponsePolicy(p) => Some(p),
            _ => response_policy_of(tips.drop_first()),
        }
    }
}

/// The first request policy among the tips.
pub fn find_request_policy(tips: &Vec<CommandTip>) -> (r: Option<RequestPolicy>)
    ensures
        r == request_policy_of(tips@),
{
    let mut i: usize = 0;
    assert(tips@.skip(0) =~= tips@);
    while i < tips.len()
        invariant
            i <= tips.len(),
            request_policy_of(tips@) == request_policy_of(tips@.skip(i as int)),
        decreases tips.len() - i,
    {
        proof {
            assert(tips@.skip(i as int).drop_first() =~= tips@.skip(i + 1));
        }
        if let CommandTip::RequestPolicy(p) = tips[i] {
            return Some(p);
        }
        i = i + 1;
    }
    None
}

/// The first response policy among the tips.
pub fn find_response_policy(tips: &Vec<CommandTip>) -> (r: Option<ResponsePolicy>)
    ensures
        r == response_policy_of(tips@),
{
    let mut i: usize = 0;
    assert(tips@.skip(0) =~= tips@);
    while i < tips.len()
        invariant
            i <= tips.len(),
            response_policy_of(tips@) == response_policy_of(tips@.skip(i as int)),
        decreases tips.len() - i,
    {
        proof {
            assert(tips@.skip(i as int).drop_first() =~= tips@.skip(i + 1));
        }
        if let CommandTip::ResponsePolicy(p) = tips[i] {
            return Some(p);
        }
        i = i + 1;
    }
    None
}

/// The positions of keys as the machine holds them.
pub enum Span {
    AskServer,
    Span { first: i128, last: i128, step: i128 },
    Counted { first: i128, count: i128, step: i128 },
}

impl View for Span {
    type V = KeySpan;

    open spec fn view(&self) -> KeySpan {
        match *self {
            Span::AskServer => KeySpan::AskServer,
            Span::Span { first, last, step } => KeySpan::Span {
                first: first as int,
                last: last as int,
                step: step as int,
            },
            Span::Counted { first, count, step } => KeySpan::Counted {
                first: first as int,
                count: count as int,
                step: step as int,
            },
        }
    }
}

/// The word of a command at a position: its name at 0, then its arguments.
fn word(command: &Command, position: usize) -> (r: &Vec<u8>)
    requires
        position <= command@.args.len(),
    ensures
        r@ == words(command@)[position as int],
{
    if position == 0 {
        &command.name
    } else {
        command.args.get(position - 1)
    }
}

/// Whether two texts are equal, letter case aside.
pub fn eq_ignore_case(a: &[u8], b: &[u8]) -> (r: bool)
    ensures
        r == (lower(a@) == lower(b@)),
{
    let x = to_lower(a);
    let y = to_lower(b);
    bytes_eq(x.as_slice(), y.as_slice())
}

/// The position after the keyword, searched upwards from `from`.
fn find_up(command: &Command, keyword: &[u8], from: i128) -> (r: i128)
    requires
        command@.args.len() < usize::MAX,
    ensures
        r == search_up(words(command@), keyword@, from as int),
        0 <= r <= command@.args.len() + 1,
{
    let argc = command.args.len() + 1;
    if from < 1 || from >= argc as i128 {
        return 0;
    }
    let mut i: usize = from as usize;
    while i < argc
        invariant
            1 <= i <= argc,
            argc == command@.args.len() + 1,
            argc == words(command@).len(),
            search_up(words(command@), keyword@, from as int) == search_up(
                words(command@),
                keyword@,
                i as int,
            ),
        decreases argc - i,
    {
        if eq_ignore_case(word(command, i).as_slice(), keyword) {
            return (i + 1) as i128;
        }
        i = i + 1;
    }
    0
}

/// The position after the keyword, searched downwards from `from`.
fn find_down(command: &Command, keyword: &[u8], from: i128) -> (r: i128)
    requires
        command@.args.len() < usize::MAX,
    ensures
        r == search_down(words(command@), keyword@, from as int),
        0 <= r <= command@.args.len() + 1,
{
    let argc = command.args.len() + 1;
    if from < 1 || from >= argc as i128 {
        return 0;
    }
    let mut i: usize = from as usize;
    while i >= 1
        invariant
            0 <= i < argc,
            argc == command@.args.len() + 1,
            argc == words(command@).len(),
            search_down(words(command@), keyword@, from as int) == search_down(
                words(command@),
                keyword@,
                i as int,
            ),
        decreases i,
    {
        if eq_ignore_case(word(command, i).as_slice(), keyword) {
            return (i + 1) as i128;
        }
        i = i - 1;
    }
    0
}

/// The positions of the keys that one specification gives for a command.
fn span_of(spec: &KeySpecification, command: &Command) -> (r: Span)
    requires
        command@.args.len() < usize::MAX,
    ensures
        r@ == key_span(spec@, words(command@)),
{
    let argc: i128 = (command.args.len() + 1) as i128;
    let first: i128 = match &spec.begin_search {
        BeginSearch::Index(pos) => *pos as i128,
        BeginSearch::Keyword { keyword, start_from } => {
            if *start_from >= 0 {
                find_up(command, keyword.as_slice(), *start_from as i128)
            } else {
                find_down(command, keyword.as_slice(), argc + *start_from as i128)
            }
        },
        BeginSearch::Unknown => {
            return Span::AskServer;
        },
    };
    match spec.find_keys {
        FindKeys::Unknown => Span::AskServer,
        FindKeys::Range { last_key, key_step, limit } => {
            let last: i128 = if last_key >= 0 {
                first + last_key as i128
            } else if limit <= 0 {
                argc + last_key as i128
            } else {
                let quotient: i128 = if first <= argc {
                    (argc - first) / (limit as i128)
                } else {
                    0
                };
                first + quotient + last_key as i128
            };
            Span::Span { first, last, step: key_step as i128 }
        },
        FindKeys::KeyEnum { key_num_idx, first_key, key_step } => {
            if 1 <= first && 0 <= key_num_idx && first + (key_num_idx as i128) < argc {
                let at: usize = (first + key_num_idx as i128) as usize;
                match parse_i64(word(command, at).as_slice()) {
                    Some(count) => Span::Counted {
                        first: first + first_key as i128,
                        count: count as i128,
                        step: key_step as i128,
                    },
                    None => Span::Counted { first: 1, count: 0, step: 1 },
                }
            } else {
                Span::Counted { first: 1, count: 0, step: 1 }
            }
        },
    }
}

/// The keys that a span holds in a command; `None` where the server has to
/// be asked.
fn keys_in_span(span: &Span, command: &Command) -> (r: Option<Vec<Vec<u8>>>)
    requires
        command@.args.len() < usize::MAX,
        span@ matches KeySpan::Span { first, last, step } ==> step <= usize::MAX,
        span@ matches KeySpan::Counted { first, count, step } ==> step <= usize::MAX,
    ensures
        match span_keys(span@, words(command@)) {
            Some(keys) => r matches Some(found) && crate::resp::command::byte_strings(found@)
                == keys,
            None => r is None,
        },
{
    let argc: usize = command.args.len() + 1;
    let ghost argv = words(command@);
    let mut out: Vec<Vec<u8>> = Vec::new();
    assert(crate::resp::command::byte_strings(out@) =~= Seq::<Seq<u8>>::empty());
    match *span {
        Span::AskServer => None,
        Span::Span { first, last, step } => {
            if !(1 <= first && first <= last && last < argc as i128 && step >= 1) {
                return Some(out);
            }
            let mut p: i128 = first;
            assert(crate::resp::command::byte_strings(out@) + words_at(
                argv,
                p as int,
                last as int,
                step as int,
            ) =~= words_at(argv, first as int, last as int, step as int));
            while p <= last
                invariant
                    1 <= first <= p,
                    last < argc,
                    1 <= step <= usize::MAX,
                    argc == argv.len(),
                    argv == words(command@),
                    argc == command@.args.len() + 1,
                    crate::resp::command::byte_strings(out@) + words_at(
                        argv,
                        p as int,
                        last as int,
                        step as int,
                    ) == words_at(argv, first as int, last as int, step as int),
                decreases
                        (if p <= last {
                            last - p + 1
                        } else {
                            0
                        }),
            {
                let key = copy_bytes(word(command, p as usize).as_slice());
                proof {
                    crate::resp::command::lemma_byte_strings_push(out@, key);
                    assert(crate::resp::command::byte_strings(out@).push(key@) + words_at(
                        argv,
                        p + step,
                        last as int,
                        step as int,
                    ) =~= crate::resp::command::byte_strings(out@) + words_at(
                        argv,
                        p as int,
                        last as int,
                        step as int,
                    ));
                }
                out.push(key);
                p = p + step;
            }
            assert(crate::resp::command::byte_strings(out@) + Seq::<Seq<u8>>::empty()
                =~= crate::resp::command::byte_strings(out@));
            Some(out)
        },
        Span::Counted { first, count, step } => {
            if step < 1 {
                return Some(out);
            }
            let mut p: i128 = first;
            let mut left: i128 = count;
            while left > 0
                invariant
                    *span == (Span::Counted { first, count, step }),
                    1 <= step <= usize::MAX,
                    argc == argv.len(),
                    argv == words(command@),
                    argc == command@.args.len() + 1,
                    left <= count,
                    first <= p,
                    p <= first || p <= argc + step,
                    match words_counted(argv, p as int, left as int, step as int) {
                        Some(rest) => words_counted(argv, first as int, count as int, step as int)
                            == Some(crate::resp::command::byte_strings(out@) + rest),
                        None => words_counted(argv, first as int, count as int, step as int)
                            is None,
                    },
                decreases left,
            {
                if p < 1 || p >= argc as i128 {
                    let none: Vec<Vec<u8>> = Vec::new();
                    assert(crate::resp::command::byte_strings(none@) =~= Seq::<Seq<u8>>::empty());
                    return Some(none);
                }
                let key = copy_bytes(word(command, p as usize).as_slice());
                proof {
                    crate::resp::command::lemma_byte_strings_push(out@, key);
                    if let Some(rest) = words_counted(argv, p + step, left - 1, step as int) {
                        assert(crate::resp::command::byte_strings(out@).push(key@) + rest
                            =~= crate::resp::command::byte_strings(out@) + (seq![argv[p as int]]
                            + rest));
                    }
                }
                out.push(key);
                p = p + step;
                left = left - 1;
            }
            assert(crate::resp::command::byte_strings(out@) + Seq::<Seq<u8>>::empty()
                =~= crate::resp::command::byte_strings(out@));
            Some(out)
        },
    }
}

/// The first position among `first`, `first + step` and so on up to `last`
/// at which the words hold `key`.
pub open spec fn key_position(argv: Seq<Seq<u8>>, key: Seq<u8>, first: int, last: int, step: int)
    -> Option<int>
    decreases
            (if first <= last {
                last - first + 1
            } else {
                0
            }),
{
    if step < 1 || first > last || first < 0 || first >= argv.len() {
        None
    } else if argv[first] == key {
        Some(first)
    } else {
        key_position(argv, key, first + step, last, step)
    }
}

/// The position after the words that belong to the key at `position`: the
/// key and what follows it up to the next key.
pub open spec fn segment_end(argv: Seq<Seq<u8>>, position: int, step: int) -> int {
    if position + step <= argv.len() {
        position + step
    } else {
        argv.len() as int
    }
}

/// The words that belong to each of the keys, in the order of the keys;
/// `None` where the command holds one of them at no key position.
pub open spec fn segments(
    argv: Seq<Seq<u8>>,
    keys: Seq<Seq<u8>>,
    first: int,
    last: int,
    step: int,
) -> Option<Seq<Seq<u8>>>
    decreases keys.len(),
{
    if keys.len() == 0 {
        Some(Seq::empty())
    } else {
        match segments(argv, keys.drop_last(), first, last, step) {
            None => None,
            Some(front) => match key_position(argv, keys.last(), first, last, step) {
                None => None,
                Some(p) => Some(front + argv.subrange(p, segment_end(argv, p, step))),
            },
        }
    }
}

/// The command rewritten for some of its keys: its name, the arguments
/// before its first key, then each of the given keys with the arguments that
/// belong to it, then the arguments after its last key.
///
/// Only a command with one key specification, a fixed first-key position
/// and a range of keys can be rewritten. A command without keys is left as
/// it is where no key is given.
pub open spec fn shard_command(info: CommandInfoView, c: CommandView, keys: Seq<Seq<u8>>) -> Result<
    CommandView,
    ErrorView,
> {
    let argv = words(c);
    if info.key_specifications.len() != 1 {
        Err(ErrorView::NotSupported)
    } else if !(info.key_specifications[0].begin_search is Index) {
        Err(ErrorView::NotSupported)
    } else {
        match key_span(info.key_specifications[0], argv) {
            KeySpan::Span { first, last, step } => if span_in_bounds(
                first,
                last,
                step,
                argv.len() as int,
            ) {
                match segments(argv, keys, first, last, step) {
                    Some(middle) => Ok(
                        CommandView {
                            name: c.name,
                            args: argv.subrange(1, first) + middle + argv.subrange(
                                segment_end(argv, last, step),
                                argv.len() as int,
                            ),
                        },
                    ),
                    None => Err(ErrorView::KeyExtraction),
                }
            } else if keys.len() == 0 {
                Ok(c)
            } else {
                Err(ErrorView::KeyExtraction)
            },
            _ => Err(ErrorView::NotSupported),
        }
    }
}

/// Appends the words of a command from one position up to another.
fn push_words(args: CommandArgs, command: &Command, from: usize, to: usize) -> (r: CommandArgs)
    requires
        from <= to <= command@.args.len() + 1,
    ensures
        r@ == args@ + words(command@).subrange(from as int, to as int),
{
    let ghost argv = words(command@);
    let mut out = args;
    let mut i: usize = from;
    assert(args@ + argv.subrange(from as int, from as int) =~= args@);
    while i < to
        invariant
            from <= i <= to <= command@.args.len() + 1,
            argv == words(command@),
            out@ == args@ + argv.subrange(from as int, i as int),
        decreases to - i,
    {
        out = out.push(copy_bytes(word(command, i).as_slice()));
        assert(args@ + argv.subrange(from as int, i + 1) =~= (args@ + argv.subrange(
            from as int,
            i as int,
        )).push(argv[i as int]));
        i = i + 1;
    }
    out
}

/// The first key position of a command that holds `key`.
fn find_key(command: &Command, key: &[u8], first: usize, last: usize, step: usize) -> (r:
    Option<usize>)
    requires
        1 <= first <= last <= command@.args.len(),
        step >= 1,
    ensures
        match key_position(words(command@), key@, first as int, last as int, step as int) {
            Some(p) => r matches Some(found) && found == p && first <= p <= last,
            None => r is None,
        },
{
    let ghost argv = words(command@);
    let mut p: usize = first;
    loop
        invariant
            first <= p <= last <= command@.args.len(),
            step >= 1,
            argv == words(command@),
            key_position(argv, key@, first as int, last as int, step as int) == key_position(
                argv,
                key@,
                p as int,
                last as int,
                step as int,
            ),
        decreases last - p,
    {
        if bytes_eq(word(command, p).as_slice(), key) {
            return Some(p);
        }
        if step > last - p {
            assert(key_position(argv, key@, p + step, last as int, step as int) is None);
            return None;
        }
        p = p + step;
    }
}

/// The catalog of the commands of a server.
pub struct CommandInfoManager {
    pub command_infos: Vec<CommandInfo>,
}

impl View for CommandInfoManager {
    type V = Seq<CommandInfoView>;

    open spec fn view(&self) -> Seq<CommandInfoView> {
        info_views(self.command_infos@)
    }
}

impl CommandInfoManager {
    /// The catalog that the reply to `COMMAND` describes.
    pub fn initialize(reply: &Value) -> (r: Result<CommandInfoManager, Error>)
        ensures
            match command_infos_of(reply@) {
                Ok(infos) => r matches Ok(found) && found@ == infos,
                Err(e) => r matches Err(f) && f@ == e,
            },
    {
        match read_command_infos(reply) {
            Ok(command_infos) => Ok(CommandInfoManager { command_infos }),
            Err(e) => Err(e),
        }
    }

    /// The entry with the given name, which is in lower case; a
    /// sub-command is named `command|sub-command`.
    pub fn get_command_info_by_name(&self, command_name: &[u8]) -> (r: Option<&CommandInfo>)
        ensures
            match entry_named(self@, command_name@) {
                Some(info) => r matches Some(found) && found@ == info,
                None => r is None,
            },
    {
        if let Some(i) = find_named(&self.command_infos, command_name) {
            return Some(&self.command_infos[i]);
        }
        let bar = crate::resp::text::index_of(command_name, BAR, 0);
        proof {
            crate::resp::text::lemma_find_byte(command_name@, BAR, 0);
        }
        if bar >= command_name.len() {
            return None;
        }
        let parent_name = crate::resp::text::copy_range(command_name, 0, bar);
        assert(parent_name@ =~= command_name@.take(bar as int));
        let parent = match find_named(&self.command_infos, parent_name.as_slice()) {
            Some(i) => &self.command_infos[i],
            None => {
                return None;
            },
        };
        match find_named(&parent.sub_commands, command_name) {
            Some(i) => Some(&parent.sub_commands[i]),
            None => None,
        }
    }

    /// The entry that answers for a command.
    pub fn get_command_info(&self, command: &Command) -> (r: Option<&CommandInfo>)
        ensures
            match info_for(self@, command@) {
                Some(info) => r matches Some(found) && found@ == info,
                None => r is None,
            },
    {
        let name = to_lower(command.name.as_slice());
        let info = match find_named(&self.command_infos, name.as_slice()) {
            Some(i) => &self.command_infos[i],
            None => {
                return None;
            },
        };
        if command.args.len() == 0 {
            return Some(info);
        }
        let mut sub_name = name;
        sub_name.push(BAR);
        let first = to_lower(command.args.get(0).as_slice());
        crate::resp::text::push_bytes(&mut sub_name, first.as_slice());
        assert(sub_name@ =~= lower(command@.name) + seq![BAR] + lower(command@.args[0]));
        match find_named(&info.sub_commands, sub_name.as_slice()) {
            Some(i) => Some(&info.sub_commands[i]),
            None => Some(info),
        }
    }

    /// The keys of a command, in the order of its arguments; `None` where
    /// the catalog leaves it to the server to name them.
    pub fn extract_keys(&self, command: &Command) -> (r: Result<Option<KeyList>, Error>)
        requires
            command@.args.len() < usize::MAX,
        ensures
            match info_for(self@, command@) {
                None => r matches Err(e) && e@ == ErrorView::UnknownCommand(command@.name),
                Some(info) => match keys_of(info, command@) {
                    None => r matches Ok(None),
                    Some(keys) => r matches Ok(Some(list)) && key_list(list) == keys,
                },
            },
    {
        let info = match self.get_command_info(command) {
            Some(info) => info,
            None => {
                return Err(Error::UnknownCommand(copy_bytes(command.name.as_slice())));
            },
        };
        let ghost argv = words(command@);
        let argc: i128 = (command.args.len() + 1) as i128;
        let specs = &info.key_specifications;
        if specs.len() == 0 {
            let last: i128 = if info.last_key >= 0 {
                info.last_key as i128
            } else {
                argc + info.last_key as i128
            };
            let span = Span::Span { first: info.first_key as i128, last, step: info.step as i128 };
            return match keys_in_span(&span, command) {
                Some(keys) => Ok(Some(KeyList::from_vec(keys))),
                None => Ok(None),
            };
        }
        let mut out: Vec<Vec<u8>> = Vec::new();
        let mut i: usize = 0;
        assert(crate::resp::command::byte_strings(out@) =~= Seq::<Seq<u8>>::empty());
        while i < specs.len()
            invariant
                i <= specs.len(),
                command@.args.len() < usize::MAX,
                argv == words(command@),
                info_for(self@, command@) == Some(info@),
                specs@.len() > 0,
                info@.key_specifications == crate::commands::command_info::key_specification_views(
                    specs@,
                ),
                keys_by_specifications(info@.key_specifications, argv, i as int) == Some(
                    crate::resp::command::byte_strings(out@),
                ),
            decreases specs.len() - i,
        {
            let span = span_of(&specs[i], command);
            match keys_in_span(&span, command) {
                Some(mut keys) => {
                    proof {
                        assert(crate::resp::command::byte_strings(out@ + keys@)
                            =~= crate::resp::command::byte_strings(out@)
                            + crate::resp::command::byte_strings(keys@));
                    }
                    out.append(&mut keys);
                },
                None => {
                    proof {
                        lemma_keys_ask(info@.key_specifications, argv, i + 1, specs.len() as int);
                    }
                    return Ok(None);
                },
            }
            i = i + 1;
        }
        Ok(Some(KeyList::from_vec(out)))
    }

    /// The command rewritten for some of its keys.
    pub fn prepare_command_for_shard(&self, command: &Command, shard_keys: &KeyList) -> (r: Result<
        Command,
        Error,
    >)
        requires
            command@.args.len() < usize::MAX,
        ensures
            match info_for(self@, command@) {
                None => r matches Err(e) && e@ == ErrorView::UnknownCommand(command@.name),
                Some(info) => match shard_command(info, command@, key_list(*shard_keys)) {
                    Ok(c) => r matches Ok(found) && found@ == c,
                    Err(e) => r matches Err(f) && f@ == e,
                },
            },
    {
        let info = match self.get_command_info(command) {
            Some(info) => info,
            None => {
                return Err(Error::UnknownCommand(copy_bytes(command.name.as_slice())));
            },
        };
        if info.key_specifications.len() != 1 {
            return Err(Error::NotSupported);
        }
        let spec = &info.key_specifications[0];
        assert(info@.key_specifications[0] == spec@);
        match &spec.begin_search {
            BeginSearch::Index(_) => {},
            _ => {
                return Err(Error::NotSupported);
            },
        }
        let ghost argv = words(command@);
        let argc: usize = command.args.len() + 1;
        let (first, last, step) = match span_of(spec, command) {
            Span::Span { first, last, step } => {
                if !(1 <= first && first <= last && last < argc as i128 && step >= 1) {
                    if shard_keys.len() == 0 {
                        return Ok(command.duplicate());
                    } else {
                        return Err(Error::KeyExtraction);
                    }
                }
                (first as usize, last as usize, step as usize)
            },
            _ => {
                return Err(Error::NotSupported);
            },
        };
        let mut args = push_words(CommandArgs::new(), command, 1, first);
        let ghost head = argv.subrange(1, first as int);
        assert(args@ =~= head);
        let n = shard_keys.len();
        let ghost keys = key_list(*shard_keys);
        let mut k: usize = 0;
        assert(keys.take(0) =~= Seq::<Seq<u8>>::empty());
        assert(head + Seq::<Seq<u8>>::empty() =~= head);
        while k < n
            invariant
                k <= n,
                n == keys.len(),
                keys == key_list(*shard_keys),
                argv == words(command@),
                argc == command@.args.len() + 1,
                argc == argv.len(),
                1 <= first <= last < argc,
                step >= 1,
                head == argv.subrange(1, first as int),
                segments(argv, keys.take(k as int), first as int, last as int, step as int)
                    is Some,
                args@ == head + segments(
                    argv,
                    keys.take(k as int),
                    first as int,
                    last as int,
                    step as int,
                ).unwrap(),
                info_for(self@, command@) == Some(info@),
                info@.key_specifications.len() == 1,
                info@.key_specifications[0].begin_search is Index,
                key_span(info@.key_specifications[0], argv) == (KeySpan::Span {
                    first: first as int,
                    last: last as int,
                    step: step as int,
                }),
            decreases n - k,
        {
            let key = match shard_keys.get(k) {
                Some(key) => key,
                None => {
                    return Err(Error::KeyExtraction);
                },
            };
            proof {
                assert(keys.take(k + 1).drop_last() =~= keys.take(k as int));
            }
            match find_key(command, key.as_slice(), first, last, step) {
                Some(p) => {
                    let end = if step <= argc - p {
                        p + step
                    } else {
                        argc
                    };
                    args = push_words(args, command, p, end);
                    assert(args@ =~= head + segments(
                        argv,
                        keys.take(k + 1),
                        first as int,
                        last as int,
                        step as int,
                    ).unwrap());
                },
                None => {
                    proof {
                        lemma_segments_missing(
                            argv,
                            keys,
                            first as int,
                            last as int,
                            step as int,
                            k + 1,
                        );
                    }
                    return Err(Error::KeyExtraction);
                },
            }
            k = k + 1;
        }
        assert(keys.take(n as int) =~= keys);
        let after = if step <= argc - last {
            last + step
        } else {
            argc
        };
        let args = push_words(args, command, after, argc);
        Ok(Command { name: copy_bytes(command.name.as_slice()), args })
    }
}

/// Where one of the first specifications leaves the keys to the server,
/// all of them together do.
pub proof fn lemma_keys_ask(specs: Seq<KeySpecificationView>, argv: Seq<Seq<u8>>, k: int, n: int)
    requires
        0 <= k <= n,
        keys_by_specifications(specs, argv, k) is None,
    ensures
        keys_by_specifications(specs, argv, n) is None,
    decreases n - k,
{
    if k < n {
        lemma_keys_ask(specs, argv, k, n - 1);
    }
}

/// Where one of the first keys stands at no key position, the command
/// cannot be rewritten for all of them.
pub proof fn lemma_segments_missing(
    argv: Seq<Seq<u8>>,
    keys: Seq<Seq<u8>>,
    first: int,
    last: int,
    step: int,
    k: int,
)
    requires
        0 <= k <= keys.len(),
        segments(argv, keys.take(k), first, last, step) is None,
    ensures
        segments(argv, keys, first, last, step) is None,
    decreases keys.len() - k,
{
    if k < keys.len() {
        assert(keys.take(k + 1).drop_last() =~= keys.take(k));
        lemma_segments_missing(argv, keys, first, last, step, k + 1);
    } else {
        assert(keys.take(k) =~= keys);
    }
}

} // verus!
