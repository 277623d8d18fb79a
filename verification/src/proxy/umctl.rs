//! The `UMCTL` commands, by which a coordinator installs a topology and
//! moves a migration on.

use super::command::{ascii_bytes, bytes_of, error_resp};
use super::database::{db_error_resp, db_error_text, names_cluster, DBError};
use super::topology::{cluster_entries, cluster_lines};
use super::manager::{
    accepts, info_text, installs, ranges_disjoint, MetaManager, MetaUpdate,
};
use super::slot::RangeModel;
use crate::common::args::{
    after, law_read_inverts_tokens, lemma_flags_read_back, lemma_live_nodes_fit, lemma_number_at,
    lemma_read_ranges, parse_host_map, parse_range_at, read_host_map, read_range, read_ranges,
    tag_fits, Read,
};
use crate::common::cluster::{Host, MigrationTaskMeta};
use crate::common::text::decimal_chars;
use crate::coordinator::sync::meta_command_words;
use crate::common::db::{
    live_nodes, node_views, nodes_tokens, range_to_args, range_tokens,
    ranges_tokens, texts, DBMapFlags, HostDBMap, NodeModel, ProxyDBMeta,
};
use crate::migration::manager::{
    first_named, meta_keys, named_by, present, topology_tasks, unknown_keys,
};
use crate::migration::task::{
    sub_cmd_arg, sub_cmd_word, switch_error_resp, switch_error_text, MgrSubCmd, SwitchArg,
    TaskEvent,
};
use vstd::utf8::{
    decode_utf8, encode_utf8, encode_utf8_decode_utf8, encode_utf8_valid_utf8, valid_utf8,
};
use crate::protocol::resp::{copy_bytes, Array, BulkStr, Resp, RespValue};
use vstd::prelude::*;
use vstd::string::*;

verus! {

/// Calls `String::from_utf8`, which checks that the bytes are UTF-8 and
/// then gives the text that they are, and fails where they are not.
#[verifier::external_body]
fn string_from_utf8(bytes: Vec<u8>) -> (text: Option<String>)
    ensures
        match text {
            Some(s) => valid_utf8(bytes@) && s@ == decode_utf8(bytes@),
            None => !valid_utf8(bytes@),
        },
{
    String::from_utf8(bytes).ok()
}

/// The words of a command whose first `upto` words are read: each is a bulk
/// string that is UTF-8. `None` where one is not.
pub open spec fn words_upto(items: Seq<RespValue>, upto: int) -> Option<Seq<Seq<char>>>
    decreases upto,
{
    if upto <= 0 {
        Some(Seq::empty())
    } else {
        match (words_upto(items, upto - 1), items[upto - 1]) {
            (Some(words), RespValue::Bulk(Some(bytes))) => if valid_utf8(bytes) {
                Some(words.push(decode_utf8(bytes)))
            } else {
                None
            },
            _ => None,
        }
    }
}

/// The words of a command: the command is an array of bulk strings that are
/// UTF-8.
pub open spec fn command_words_of(command: RespValue) -> Option<Seq<Seq<char>>> {
    match command {
        RespValue::Array(Some(items)) => words_upto(items, items.len() as int),
        _ => None,
    }
}

/// The words of `command`.
pub fn command_words(command: &Resp) -> (res: Option<Vec<String>>)
    ensures
        match command_words_of(command@) {
            Some(words) => res matches Some(w) && texts(w@) == words,
            None => res is None,
        },
{
    let items = match command {
        Resp::Arr(Array::Arr(items)) => items,
        _ => {
            return None;
        },
    };
    let ghost models = command@->Array_0->0;
    proof {
        assert(command@ == RespValue::Array(
            Some(crate::protocol::resp::model_of_items(items@)),
        ));
    }
    let mut words: Vec<String> = Vec::new();
    assert(texts(words@) =~= Seq::<Seq<char>>::empty());
    let mut i: usize = 0;
    while i < items.len()
        invariant
            i <= items.len(),
            models == crate::protocol::resp::model_of_items(items@),
            command@ == RespValue::Array(Some(models)),
            words_upto(models, i as int) == Some(texts(words@)),
        decreases items.len() - i,
    {
        proof {
            assert(models[i as int] == items[i as int]@);
        }
        let word = match &items[i] {
            Resp::Bulk(BulkStr::Str(bytes)) => match string_from_utf8(copy_bytes(bytes)) {
                Some(word) => word,
                None => {
                    proof {
                        assert(words_upto(models, i + 1) is None);
                        lemma_words_stay_none(models, i + 1, items.len() as int);
                    }
                    return None;
                },
            },
            _ => {
                proof {
                    assert(words_upto(models, i + 1) is None);
                    lemma_words_stay_none(models, i + 1, items.len() as int);
                }
                return None;
            },
        };
        let ghost before = texts(words@);
        words.push(word);
        assert(texts(words@) =~= before.push(word@));
        i += 1;
    }
    Some(words)
}

/// Once a word cannot be read, the command has no words.
pub proof fn lemma_words_stay_none(items: Seq<RespValue>, at: int, upto: int)
    requires
        0 < at <= upto,
        words_upto(items, at) is None,
    ensures
        words_upto(items, upto) is None,
    decreases upto - at,
{
    if at < upto {
        lemma_words_stay_none(items, at + 1, upto);
    }
}

/// A `UMCTL` command.
#[derive(Debug)]
pub enum UmctlRequest {
    /// Install what the proxy serves itself.
    SetDB(HostDBMap),
    /// Install what the peers of the proxy serve.
    SetPeer(HostDBMap),
    /// Move a migration on.
    TmpSwitch(SwitchArg, MgrSubCmd),
    /// Give a report.
    Info,
    /// Give the topology of a cluster as lines of text.
    ClusterNodes(String),
    /// Give the topology of a cluster as a reply of entries.
    ClusterSlots(String),
}

/// The model of a `UMCTL` command.
pub enum RequestModel {
    SetDB(nat, DBMapFlags, Seq<NodeModel>),
    SetPeer(nat, DBMapFlags, Seq<NodeModel>),
    TmpSwitch { version: Seq<char>, sub_cmd: MgrSubCmd, db: Seq<char>, range: RangeModel },
    Info,
    ClusterNodes(Seq<char>),
    ClusterSlots(Seq<char>),
}

impl View for UmctlRequest {
    type V = RequestModel;

    open spec fn view(&self) -> RequestModel {
        match self {
            UmctlRequest::SetDB(map) => RequestModel::SetDB(
                map.epoch() as nat,
                map.flags(),
                node_views(map.nodes()),
            ),
            UmctlRequest::SetPeer(map) => RequestModel::SetPeer(
                map.epoch() as nat,
                map.flags(),
                node_views(map.nodes()),
            ),
            UmctlRequest::TmpSwitch(arg, sub_cmd) => RequestModel::TmpSwitch {
                version: arg.version@,
                sub_cmd: *sub_cmd,
                db: arg.meta.db_name@,
                range: arg.meta.slot_range@,
            },
            UmctlRequest::Info => RequestModel::Info,
            UmctlRequest::ClusterNodes(db) => RequestModel::ClusterNodes(db@),
            UmctlRequest::ClusterSlots(db) => RequestModel::ClusterSlots(db@),
        }
    }
}

/// The step that a word stands for.
pub open spec fn read_sub_cmd(word: Seq<char>) -> Option<MgrSubCmd> {
    if word == "PRECHECK"@ {
        Some(MgrSubCmd::PreCheck)
    } else if word == "PREBLOCK"@ {
        Some(MgrSubCmd::PreBlock)
    } else if word == "COMMIT"@ {
        Some(MgrSubCmd::Commit)
    } else {
        None
    }
}

/// The switch that the words spell behind `UMCTL TMPSWITCH`: the version,
/// the step, the cluster, and one range to the end of the words.
pub open spec fn read_switch(words: Seq<Seq<char>>) -> Option<RequestModel> {
    if words.len() < 6 {
        None
    } else {
        match (read_sub_cmd(words[3]), read_range(words, 5)) {
            (Some(sub_cmd), Read::Done { value, end }) => if end == words.len() {
                Some(RequestModel::TmpSwitch { version: words[2], sub_cmd, db: words[4], range: value })
            } else {
                None
            },
            _ => None,
        }
    }
}

/// The `UMCTL` command that the words spell: `UMCTL`, a subcommand, and the
/// arguments of the subcommand. `None` where the words spell none.
pub open spec fn read_umctl(words: Seq<Seq<char>>) -> Option<RequestModel> {
    if words.len() < 2 || words[0] != "UMCTL"@ {
        None
    } else if words[1] == "SETDB"@ {
        match read_host_map(words, 2) {
            Some((epoch, flags, nodes)) => Some(RequestModel::SetDB(epoch, flags, nodes)),
            None => None,
        }
    } else if words[1] == "SETPEER"@ {
        match read_host_map(words, 2) {
            Some((epoch, flags, nodes)) => Some(RequestModel::SetPeer(epoch, flags, nodes)),
            None => None,
        }
    } else if words[1] == "TMPSWITCH"@ {
        read_switch(words)
    } else if words[1] == "INFO"@ && words.len() == 2 {
        Some(RequestModel::Info)
    } else if words[1] == "CLUSTER"@ && words.len() == 4 && words[2] == "NODES"@ {
        Some(RequestModel::ClusterNodes(words[3]))
    } else if words[1] == "CLUSTER"@ && words.len() == 4 && words[2] == "SLOTS"@ {
        Some(RequestModel::ClusterSlots(words[3]))
    } else {
        None
    }
}

/// Reads the step that `word` stands for.
fn parse_sub_cmd(word: &String) -> (res: Option<MgrSubCmd>)
    ensures
        res == read_sub_cmd(word@),
{
    if *word == String::from_str("PRECHECK") {
        Some(MgrSubCmd::PreCheck)
    } else if *word == String::from_str("PREBLOCK") {
        Some(MgrSubCmd::PreBlock)
    } else if *word == String::from_str("COMMIT") {
        Some(MgrSubCmd::Commit)
    } else {
        None
    }
}

/// Reads the `UMCTL` command that `words` spell.
pub fn parse_umctl(words: &Vec<String>) -> (res: Option<UmctlRequest>)
    ensures
        match read_umctl(texts(words@)) {
            Some(model) => res matches Some(request) && request@ == model,
            None => res is None,
        },
{
    if words.len() < 2 || !(words[0] == String::from_str("UMCTL")) {
        return None;
    }
    let sub = &words[1];
    if *sub == String::from_str("SETDB") {
        match parse_host_map(words, 2) {
            Some(map) => Some(UmctlRequest::SetDB(map)),
            None => None,
        }
    } else if *sub == String::from_str("SETPEER") {
        match parse_host_map(words, 2) {
            Some(map) => Some(UmctlRequest::SetPeer(map)),
            None => None,
        }
    } else if *sub == String::from_str("TMPSWITCH") {
        if words.len() < 6 {
            return None;
        }
        let sub_cmd = match parse_sub_cmd(&words[3]) {
            Some(sub_cmd) => sub_cmd,
            None => {
                return None;
            },
        };
        match parse_range_at(words, 5) {
            Some((slot_range, end)) => {
                if end != words.len() {
                    return None;
                }
                let arg = SwitchArg {
                    version: words[2].clone(),
                    meta: MigrationTaskMeta { db_name: words[4].clone(), slot_range },
                };
                Some(UmctlRequest::TmpSwitch(arg, sub_cmd))
            },
            None => None,
        }
    } else if *sub == String::from_str("INFO") && words.len() == 2 {
        Some(UmctlRequest::Info)
    } else if *sub == String::from_str("CLUSTER") && words.len() == 4 && words[2]
        == String::from_str("NODES") {
        Some(UmctlRequest::ClusterNodes(words[3].clone()))
    } else if *sub == String::from_str("CLUSTER") && words.len() == 4 && words[2]
        == String::from_str("SLOTS") {
        Some(UmctlRequest::ClusterSlots(words[3].clone()))
    } else {
        None
    }
}

/// The words of a switch command: `UMCTL TMPSWITCH`, the version, the step,
/// the cluster, and the range with its tag.
pub open spec fn switch_words(
    version: Seq<char>,
    sub_cmd: MgrSubCmd,
    db: Seq<char>,
    range: RangeModel,
) -> Seq<Seq<char>> {
    seq!["UMCTL"@, "TMPSWITCH"@, version, sub_cmd_word(sub_cmd), db] + range_tokens(range)
}

/// The switch command that asks the other side of the migration `meta` for
/// the step `sub_cmd`, word by word.
pub fn switch_command(version: &String, sub_cmd: MgrSubCmd, meta: &MigrationTaskMeta) -> (cmd: Vec<
    String,
>)
    ensures
        texts(cmd@) == switch_words(version@, sub_cmd, meta.db_name@, meta.slot_range@),
{
    let mut cmd: Vec<String> = Vec::new();
    cmd.push(String::from_str("UMCTL"));
    cmd.push(String::from_str("TMPSWITCH"));
    cmd.push(version.clone());
    cmd.push(sub_cmd_arg(sub_cmd));
    cmd.push(meta.db_name.clone());
    let args = range_to_args(&meta.slot_range);
    let ghost head = texts(cmd@);
    assert(head =~= seq![
        "UMCTL"@,
        "TMPSWITCH"@,
        version@,
        sub_cmd_word(sub_cmd),
        meta.db_name@,
    ]);
    let mut i: usize = 0;
    while i < args.len()
        invariant
            i <= args.len(),
            texts(cmd@) == head + texts(args@).take(i as int),
        decreases args.len() - i,
    {
        let ghost before = texts(cmd@);
        cmd.push(args[i].clone());
        assert(texts(cmd@) =~= before.push(args@[i as int]@));
        assert(texts(args@).take(i + 1) =~= texts(args@).take(i as int).push(args@[i as int]@));
        i += 1;
    }
    assert(texts(args@).take(i as int) =~= texts(args@));
    cmd
}

/// A switch command is read back as it was written: its words spell the
/// switch with the same version, step, cluster and range.
pub proof fn law_switch_is_read_back(
    version: Seq<char>,
    sub_cmd: MgrSubCmd,
    db: Seq<char>,
    range: RangeModel,
)
    requires
        range.start <= usize::MAX,
        range.end <= usize::MAX,
        tag_fits(range.tag),
    ensures
        read_umctl(switch_words(version, sub_cmd, db, range)) == Some(
            RequestModel::TmpSwitch { version, sub_cmd, db, range },
        ),
{
    reveal_strlit("UMCTL");
    reveal_strlit("SETDB");
    reveal_strlit("SETPEER");
    reveal_strlit("TMPSWITCH");
    reveal_strlit("PRECHECK");
    reveal_strlit("PREBLOCK");
    reveal_strlit("COMMIT");
    let words = switch_words(version, sub_cmd, db, range);
    let tail = range_tokens(range);
    assert("SETDB"@.len() == 5);
    assert("SETPEER"@.len() == 7);
    assert("TMPSWITCH"@.len() == 9);
    assert("PRECHECK"@.len() == 8);
    assert("PREBLOCK"@.len() == 8);
    assert("COMMIT"@.len() == 6);
    assert("PRECHECK"@[3] == 'C');
    assert("PREBLOCK"@[3] == 'B');
    assert(words[0] == "UMCTL"@);
    assert(words[1] == "TMPSWITCH"@);
    assert(words[2] == version);
    assert(words[3] == sub_cmd_word(sub_cmd));
    assert(words[4] == db);
    assert(read_sub_cmd(sub_cmd_word(sub_cmd)) == Some(sub_cmd));
    let ranges = seq![range];
    assert(ranges.skip(1) =~= Seq::<RangeModel>::empty());
    assert(ranges_tokens(Seq::<RangeModel>::empty()) =~= Seq::<Seq<char>>::empty());
    assert(ranges[0] == range);
    assert(ranges_tokens(ranges) =~= tail);
    assert(words.subrange(5, 5 + tail.len() as int) =~= tail);
    lemma_read_ranges(words, 5, ranges);
    assert(read_ranges(words, 5, 1) == after(seq![read_range(words, 5)->value], read_ranges(
        words,
        read_range(words, 5)->end,
        0,
    )));
    assert(read_range(words, 5) is Done);
    assert(seq![read_range(words, 5)->value][0] == ranges[0]);
}

/// What a `UMCTL` command ends in: the reply, and what an installed
/// topology leaves to do outside.
#[derive(Debug)]
pub struct UmctlOutcome {
    pub reply: Resp,
    pub update: Option<MetaUpdate>,
}

/// The reply that all went well.
pub open spec fn ok_reply() -> RespValue {
    RespValue::Simple(ascii_bytes("OK"@))
}

/// The error reply with the text `text`.
pub open spec fn error_reply(text: Seq<char>) -> RespValue {
    RespValue::Error(ascii_bytes(text))
}

/// The reply to words that spell no command.
pub open spec fn invalid_arg_reply() -> RespValue {
    error_reply("Err invalid arg"@)
}

/// The `UMCTL` command that `command` spells, where it spells one.
pub open spec fn spelled_command(command: RespValue) -> RequestModel {
    read_umctl(command_words_of(command)->0)->0
}

/// Whether `command` is no `UMCTL` command: its words cannot be read, or
/// they spell none.
pub open spec fn spells_no_command(command: RespValue) -> bool {
    command_words_of(command) is None || read_umctl(command_words_of(command)->0) is None
}

/// The reply that all went well.
fn ok_resp() -> (resp: Resp)
    ensures
        resp@ == ok_reply(),
{
    proof {
        reveal_strlit("OK");
    }
    Resp::Simple(bytes_of("OK"))
}

/// What handling `request` makes of a manager and answers: `after` and
/// `outcome` are what `before` and the request lead to.
///
/// A topology that the epoch gate refuses is answered with `Err old epoch`
/// and changes nothing; one that it takes is installed and answered with
/// `OK`. A switch is answered with `OK` and applied, or answered with the
/// reason why it was not. A report comes as a bulk string.
pub open spec fn umctl_post(
    before: MetaManager,
    request: UmctlRequest,
    after: MetaManager,
    outcome: UmctlOutcome,
) -> bool {
    &&& after.config() == before.config()
    &&& after.replicators() == before.replicators()
    &&& match request {
    UmctlRequest::SetDB(map) => {
        &&& after.peer() == before.peer()
        &&& after.peer_epoch() == before.peer_epoch()
        &&& if accepts(before.epoch(), map.epoch(), map.flags().force) {
            &&& outcome.reply@ == ok_reply()
            &&& outcome.update is Some
            &&& after.epoch() == map.epoch()
            &&& installs(before.meta_map(), map.nodes(), after.meta_map())
        } else {
            &&& outcome.reply@ == error_reply(db_error_text(DBError::OldEpoch))
            &&& outcome.update is None
            &&& after.same_topology(before)
        }
    },
    UmctlRequest::SetPeer(map) => {
        &&& outcome.update is None
        &&& after.same_topology(before)
        &&& if accepts(before.peer_epoch(), map.epoch(), map.flags().force) {
            &&& outcome.reply@ == ok_reply()
            &&& after.peer_epoch() == map.epoch()
            &&& node_views(after.peer()) == node_views(map.nodes())
        } else {
            &&& outcome.reply@ == error_reply(db_error_text(DBError::OldEpoch))
            &&& after.peer_epoch() == before.peer_epoch()
            &&& after.peer() == before.peer()
        }
    },
    UmctlRequest::TmpSwitch(arg, sub_cmd) => {
        let named = named_by(arg.meta.db_name@, arg.meta.slot_range);
        &&& outcome.update is None
        &&& after.same_but_states(before)
        &&& outcome.reply@ == match before.switched(named) {
            Ok(()) => ok_reply(),
            Err(e) => error_reply(switch_error_text(e)),
        }
        &&& after.meta_map().migration_map().states() == if before.switched(
            named,
        ) is Ok {
            before.meta_map().migration_map().states_after(
                named,
                TaskEvent::Switch(sub_cmd),
            )
        } else {
            before.meta_map().migration_map().states()
        }
    },
    UmctlRequest::Info => {
        &&& outcome.update is None
        &&& after.same_topology(before)
        &&& after.same_surroundings(before)
        &&& outcome.reply@ == RespValue::Bulk(
            Some(
                encode_utf8(
                    info_text(
                        before.meta_map().db_map().names().len(),
                        before.meta_map().migration_map().keys().len(),
                        before.meta_map().deleting_task_map().ranges().len(),
                    ),
                ),
            ),
        )
    },
    UmctlRequest::ClusterNodes(db) => {
        &&& outcome.update is None
        &&& after.same_topology(before)
        &&& after.same_surroundings(before)
        &&& outcome.reply@ == RespValue::Bulk(
            Some(
                encode_utf8(
                    cluster_lines(
                        node_views(before.local()),
                        db@,
                        before.local().len() as int,
                    ) + cluster_lines(
                        node_views(before.peer()),
                        db@,
                        before.peer().len() as int,
                    ),
                ),
            ),
        )
    },
    UmctlRequest::ClusterSlots(db) => {
        &&& outcome.update is None
        &&& after.same_topology(before)
        &&& after.same_surroundings(before)
        &&& outcome.reply@ == if names_cluster(before.local(), db@) || names_cluster(
            before.peer(),
            db@,
        ) {
            RespValue::Array(
                Some(
                    cluster_entries(
                        node_views(before.local()),
                        db@,
                        before.local().len() as int,
                    ) + cluster_entries(
                        node_views(before.peer()),
                        db@,
                        before.peer().len() as int,
                    ),
                ),
            )
        } else {
            error_reply("Err db not found"@)
        }
    },
}
}

/// Applies `request` to `manager` and gives the reply.
///
/// A topology that the epoch gate refuses is answered with `Err old epoch`
/// and changes nothing; one that it takes is installed and answered with
/// `OK`. A switch is answered with `OK` or with the reason why it was not
/// applied. A report comes as a bulk string.
pub fn handle_umctl(manager: &mut MetaManager, request: UmctlRequest) -> (outcome: UmctlOutcome)
    ensures
        umctl_post(*old(manager), request, *final(manager), outcome),
{
    match request {
        UmctlRequest::SetDB(map) => {
            let epoch = map.get_epoch();
            let flags = map.get_flags();
            let db_meta = ProxyDBMeta::new(epoch, flags, map.into_nodes(), Vec::new());
            match manager.set_meta(db_meta) {
                Ok(update) => UmctlOutcome { reply: ok_resp(), update: Some(update) },
                Err(e) => UmctlOutcome { reply: db_error_resp(e), update: None },
            }
        },
        UmctlRequest::SetPeer(map) => match manager.set_peer(map) {
            Ok(()) => UmctlOutcome { reply: ok_resp(), update: None },
            Err(e) => UmctlOutcome { reply: db_error_resp(e), update: None },
        },
        UmctlRequest::TmpSwitch(arg, sub_cmd) => match manager.handle_switch(arg, sub_cmd) {
            Ok(()) => UmctlOutcome { reply: ok_resp(), update: None },
            Err(e) => UmctlOutcome { reply: switch_error_resp(e), update: None },
        },
        UmctlRequest::Info => {
            let report = manager.info();
            UmctlOutcome {
                reply: Resp::Bulk(BulkStr::Str(report.as_str().as_bytes_vec())),
                update: None,
            }
        },
        UmctlRequest::ClusterNodes(db) => {
            let text = manager.gen_cluster_nodes(db);
            UmctlOutcome {
                reply: Resp::Bulk(BulkStr::Str(text.as_str().as_bytes_vec())),
                update: None,
            }
        },
        UmctlRequest::ClusterSlots(db) => match manager.gen_cluster_slots(db) {
            Ok(entries) => UmctlOutcome { reply: Resp::Arr(Array::Arr(entries)), update: None },
            Err(_) => {
                proof {
                    reveal_strlit("Err db not found");
                }
                UmctlOutcome { reply: error_resp("Err db not found"), update: None }
            },
        },
    }
}

/// Handles a command of the `UMCTL` family as it came off the wire.
///
/// A command whose words cannot be read, or spell no `UMCTL` command, is
/// answered with `Err invalid arg` and changes nothing.
pub fn handle_admin(manager: &mut MetaManager, command: &Resp) -> (outcome: UmctlOutcome)
    ensures
        final(manager).config() == old(manager).config(),
        final(manager).replicators() == old(manager).replicators(),
        spells_no_command(command@) ==> {
            &&& outcome.reply@ == invalid_arg_reply()
            &&& outcome.update is None
            &&& final(manager).same_topology(*old(manager))
            &&& final(manager).same_surroundings(*old(manager))
        },
        !spells_no_command(command@) ==> exists|request: UmctlRequest|
            {
                &&& request@ == spelled_command(command@)
                &&& #[trigger] umctl_post(*old(manager), request, *final(manager), outcome)
            },
{
    let request = match command_words(command) {
        Some(words) => parse_umctl(&words),
        None => None,
    };
    match request {
        Some(request) => {
            let ghost taken = request;
            let outcome = handle_umctl(manager, request);
            assert(taken@ == spelled_command(command@));
            assert(umctl_post(*old(manager), taken, *manager, outcome));
            outcome
        },
        None => {
            proof {
                reveal_strlit("Err invalid arg");
            }
            UmctlOutcome { reply: error_resp("Err invalid arg"), update: None }
        },
    }
}

/// Whether `command` names `UMCTL`: it is an array whose first element is
/// the bulk string `UMCTL`.
pub open spec fn names_umctl(command: RespValue) -> bool {
    command matches RespValue::Array(Some(items)) && items.len() > 0 && items[0]
        == RespValue::Bulk(Some(ascii_bytes("UMCTL"@)))
}

/// Whether `command` is for the admin door rather than for a backend.
pub fn is_admin(command: &Resp) -> (res: bool)
    ensures
        res == names_umctl(command@),
{
    proof {
        reveal_strlit("UMCTL");
    }
    match command {
        Resp::Arr(Array::Arr(items)) => {
            proof {
                assert(command@ == RespValue::Array(
                    Some(crate::protocol::resp::model_of_items(items@)),
                ));
                if items.len() > 0 {
                    assert(crate::protocol::resp::model_of_items(items@)[0] == items[0]@);
                }
            }
            if items.len() == 0 {
                return false;
            }
            match &items[0] {
                Resp::Bulk(BulkStr::Str(name)) => {
                    let umctl = bytes_of("UMCTL");
                    same_bytes(name, &umctl)
                },
                _ => false,
            }
        },
        _ => false,
    }
}

/// Whether two byte strings are the same.
fn same_bytes(a: &Vec<u8>, b: &Vec<u8>) -> (res: bool)
    ensures
        res == (a@ == b@),
{
    if a.len() != b.len() {
        return false;
    }
    let mut i: usize = 0;
    while i < a.len()
        invariant
            i <= a.len(),
            a.len() == b.len(),
            forall|k: int| 0 <= k < i ==> a@[k] == b@[k],
        decreases a.len() - i,
    {
        if a[i] != b[i] {
            return false;
        }
        i += 1;
    }
    assert(a@ =~= b@);
    true
}

/// The reply, of bulk strings, that sends `words` as a command.
pub open spec fn command_of_words(words: Seq<Seq<char>>) -> RespValue {
    RespValue::Array(
        Some(Seq::new(words.len(), |i: int| RespValue::Bulk(Some(encode_utf8(words[i]))))),
    )
}

/// The words of a command that was made of words are those words.
pub proof fn lemma_words_are_read_back(words: Seq<Seq<char>>)
    ensures
        command_words_of(command_of_words(words)) == Some(words),
{
    let items = command_of_words(words)->Array_0->0;
    lemma_words_upto(words, items, words.len() as int);
    assert(words.take(words.len() as int) =~= words);
}

/// The first words of a command that was made of words are read back.
proof fn lemma_words_upto(words: Seq<Seq<char>>, items: Seq<RespValue>, upto: int)
    requires
        0 <= upto <= words.len(),
        items == command_of_words(words)->Array_0->0,
    ensures
        words_upto(items, upto) == Some(words.take(upto)),
    decreases upto,
{
    if upto == 0 {
        assert(words.take(0) =~= Seq::<Seq<char>>::empty());
    } else {
        lemma_words_upto(words, items, upto - 1);
        encode_utf8_valid_utf8(words[upto - 1]);
        encode_utf8_decode_utf8(words[upto - 1]);
        assert(items[upto - 1] == RespValue::Bulk(Some(encode_utf8(words[upto - 1]))));
        assert(words.take(upto) =~= words.take(upto - 1).push(words[upto - 1]));
    }
}

/// The proxy reads back what the coordinator wrote: the command that pushes
/// the topology of `host`, sent as bulk strings, spells the installation of
/// that topology, with the host's epoch and the flags, for the proxy's own
/// part or for its peers as the subcommand says.
pub proof fn law_pushed_topology_is_read_back(host: Host, flags: DBMapFlags, peer: bool)
    ensures
        spelled_command(
            command_of_words(
                meta_command_words(
                    host,
                    if peer {
                        "SETPEER"@
                    } else {
                        "SETDB"@
                    },
                    flags,
                ),
            ),
        ) == if peer {
            RequestModel::SetPeer(
                host.epoch() as nat,
                flags,
                live_nodes(host.nodes(), host.nodes().len() as int),
            )
        } else {
            RequestModel::SetDB(
                host.epoch() as nat,
                flags,
                live_nodes(host.nodes(), host.nodes().len() as int),
            )
        },
        !spells_no_command(
            command_of_words(
                meta_command_words(
                    host,
                    if peer {
                        "SETPEER"@
                    } else {
                        "SETDB"@
                    },
                    flags,
                ),
            ),
        ),
{
    reveal_strlit("UMCTL");
    reveal_strlit("SETDB");
    reveal_strlit("SETPEER");
    assert("SETDB"@.len() == 5);
    assert("SETPEER"@.len() == 7);
    let sub = if peer {
        "SETPEER"@
    } else {
        "SETDB"@
    };
    let words = meta_command_words(host, sub, flags);
    let nodes = live_nodes(host.nodes(), host.nodes().len() as int);
    lemma_words_are_read_back(words);
    lemma_live_nodes_fit(host.nodes(), host.nodes().len() as int);
    let front = seq!["UMCTL"@, sub, decimal_chars(host.epoch() as nat), flags.arg()];
    assert(words == front + nodes_tokens(nodes));
    law_read_inverts_tokens(front, nodes);
    lemma_flags_read_back(flags);
    lemma_number_at(words, 2, host.epoch() as nat, u64::MAX as nat);
    assert(words[0] == "UMCTL"@);
    assert(words[1] == sub);
    assert(words[3] == flags.arg());
}

} // verus!
