//! Reading the topology of a proxy from the broker, and pushing it to the
//! proxy as a `UMCTL` command.

use super::broker::{MetaDataBroker, MetaDataBrokerError};
use super::round::{CoordinateError, HostMetaRetriever, HostMetaSender};
use crate::common::cluster::Host;
use crate::common::db::{live_nodes, nodes_tokens, texts, DBMapFlags, HostDBMap};
use crate::common::text::{decimal_chars, decimal_string};
use crate::protocol::client::{RedisClient, RedisClientError};
use crate::protocol::resp::{BinSafeStr, Resp};
use vstd::prelude::*;
use vstd::string::*;

verus! {

/// The words of the command that pushes the topology of `host`: `UMCTL`,
/// the subcommand, the epoch, the flags, and for each backend of the host
/// its cluster, its address, the number of its ranges, and the ranges.
pub open spec fn meta_command_words(host: Host, sub_command: Seq<char>, flags: DBMapFlags) -> Seq<
    Seq<char>,
> {
    seq!["UMCTL"@, sub_command, decimal_chars(host.epoch() as nat), flags.arg()] + nodes_tokens(
        live_nodes(host.nodes(), host.nodes().len() as int),
    )
}

/// The command that pushes the topology of `host`, word by word.
pub fn meta_command(host: &Host, sub_command: &String, flags: DBMapFlags) -> (cmd: Vec<String>)
    ensures
        texts(cmd@) == meta_command_words(*host, sub_command@, flags),
{
    let epoch = host.get_epoch();
    let args = HostDBMap::from_host(host, flags).db_map_to_args();
    let mut cmd: Vec<String> = Vec::new();
    cmd.push(String::from_str("UMCTL"));
    cmd.push(sub_command.clone());
    cmd.push(decimal_string(epoch));
    cmd.push(flags.to_arg());
    let ghost head = texts(cmd@);
    assert(head =~= seq!["UMCTL"@, sub_command@, decimal_chars(host.epoch() as nat), flags.arg()]);
    let mut i: usize = 0;
    while i < args.len()
        invariant
            i <= args.len(),
            texts(cmd@) == head + texts(args@).take(i as int),
        decreases args.len() - i,
    {
        let ghost before = texts(cmd@);
        cmd.push(args[i].clone());
        assert(texts(cmd@) =~= before.push(args@[i as int]@));
        assert(texts(args@).take(i + 1) =~= texts(args@).take(i as int).push(args@[i as int]@));
        i += 1;
    }
    assert(texts(args@).take(i as int) =~= texts(args@));
    cmd
}

/// The bytes of each word of `words`.
pub open spec fn words_bytes(words: Seq<String>) -> Seq<Seq<u8>> {
    Seq::new(words.len(), |i: int| vstd::utf8::encode_utf8(words[i]@))
}

/// The views of `words`, in order.
pub open spec fn bytes_views(words: Seq<BinSafeStr>) -> Seq<Seq<u8>> {
    Seq::new(words.len(), |i: int| words[i]@)
}

/// The words of a command as the byte strings that go on the wire.
pub fn command_bytes(cmd: &Vec<String>) -> (bytes: Vec<BinSafeStr>)
    ensures
        bytes_views(bytes@) == words_bytes(cmd@),
{
    let mut bytes: Vec<BinSafeStr> = Vec::new();
    let mut i: usize = 0;
    while i < cmd.len()
        invariant
            i <= cmd.len(),
            bytes_views(bytes@) == words_bytes(cmd@).take(i as int),
        decreases cmd.len() - i,
    {
        let ghost before = bytes_views(bytes@);
        bytes.push(cmd[i].as_str().as_bytes_vec());
        assert(bytes_views(bytes@) =~= before.push(vstd::utf8::encode_utf8(cmd@[i as int]@)));
        assert(words_bytes(cmd@).take(i + 1) =~= before.push(vstd::utf8::encode_utf8(cmd@[i as int]@)));
        i += 1;
    }
    assert(words_bytes(cmd@).take(i as int) =~= words_bytes(cmd@));
    bytes
}

/// What the reply of a proxy to a push means: an error reply fails the
/// round for the proxy, any other reply is success, and a client failure is
/// handed on.
pub fn meta_reply_outcome(reply: Result<Resp, RedisClientError>) -> (res: Result<
    (),
    CoordinateError,
>)
    ensures
        res == match reply {
            Err(e) => Err::<(), CoordinateError>(CoordinateError::Redis(e)),
            Ok(Resp::Error(_)) => Err::<(), CoordinateError>(CoordinateError::InvalidReply),
            Ok(_) => Ok::<(), CoordinateError>(()),
        },
{
    match reply {
        Err(e) => Err(CoordinateError::Redis(e)),
        Ok(Resp::Error(_)) => Err(CoordinateError::InvalidReply),
        Ok(_) => Ok(()),
    }
}

/// What the answer of the broker means: a host or none is handed on, a
/// broker failure becomes a failure of the round for the proxy.
pub fn host_meta_outcome(answer: Result<Option<Host>, MetaDataBrokerError>) -> (res: Result<
    Option<Host>,
    CoordinateError,
>)
    ensures
        res == match answer {
            Ok(host) => Ok::<Option<Host>, CoordinateError>(host),
            Err(e) => Err::<Option<Host>, CoordinateError>(CoordinateError::MetaData(e)),
        },
{
    match answer {
        Ok(host) => Ok(host),
        Err(e) => Err(CoordinateError::MetaData(e)),
    }
}

/// Pushes the topology of `host` to the proxy at the host's address with
/// the subcommand `sub_command`, which is `SETDB` or `SETPEER`.
pub fn send_meta<C: RedisClient>(client: &C, host: Host, sub_command: String, flags: DBMapFlags) -> (res:
    Result<(), CoordinateError>)
    ensures
        res matches Err(e) ==> e is Redis || e is InvalidReply,
{
    let address = host.get_address().clone();
    let cmd = meta_command(&host, &sub_command, flags);
    meta_reply_outcome(client.execute(address, command_bytes(&cmd)))
}

/// Pushes what a proxy serves itself: `UMCTL SETDB`.
pub struct HostMetaRespSender<C: RedisClient> {
    client: C,
}

impl<C: RedisClient> HostMetaRespSender<C> {
    /// The client that the sender sends through.
    pub closed spec fn client(&self) -> C {
        self.client
    }

    pub fn new(client: C) -> (res: Self)
        ensures
            res.client() == client,
    {
        Self { client }
    }
}

impl<C: RedisClient> HostMetaSender for HostMetaRespSender<C> {
    fn send_meta(&self, host: Host) -> (res: Result<(), CoordinateError>)
        ensures
            res matches Err(e) ==> e is Redis || e is InvalidReply,
    {
        send_meta(&self.client, host, String::from_str("SETDB"), DBMapFlags { force: false })
    }
}

/// Pushes what the peers of a proxy serve: `UMCTL SETPEER`.
pub struct PeerMetaRespSender<C: RedisClient> {
    client: C,
}

impl<C: RedisClient> PeerMetaRespSender<C> {
    /// The client that the sender sends through.
    pub closed spec fn client(&self) -> C {
        self.client
    }

    pub fn new(client: C) -> (res: Self)
        ensures
            res.client() == client,
    {
        Self { client }
    }
}

impl<C: RedisClient> HostMetaSender for PeerMetaRespSender<C> {
    fn send_meta(&self, host: Host) -> (res: Result<(), CoordinateError>)
        ensures
            res matches Err(e) ==> e is Redis || e is InvalidReply,
    {
        send_meta(&self.client, host, String::from_str("SETPEER"), DBMapFlags { force: false })
    }
}

/// Reads what a proxy serves itself.
pub struct LocalMetaRetriever<B: MetaDataBroker> {
    broker: B,
}

impl<B: MetaDataBroker> LocalMetaRetriever<B> {
    /// The broker that the retriever asks.
    pub closed spec fn broker(&self) -> B {
        self.broker
    }

    pub fn new(broker: B) -> (res: Self)
        ensures
            res.broker() == broker,
    {
        Self { broker }
    }
}

impl<B: MetaDataBroker> HostMetaRetriever for LocalMetaRetriever<B> {
    fn get_host_meta(&self, address: String) -> (res: Result<Option<Host>, CoordinateError>)
        ensures
            res matches Err(e) ==> e is MetaData,
    {
        host_meta_outcome(self.broker.get_host(address))
    }
}

/// Reads what the peers of a proxy serve.
pub struct PeerMetaRetriever<B: MetaDataBroker> {
    broker: B,
}

impl<B: MetaDataBroker> PeerMetaRetriever<B> {
    /// The broker that the retriever asks.
    pub closed spec fn broker(&self) -> B {
        self.broker
    }

    pub fn new(broker: B) -> (res: Self)
        ensures
            res.broker() == broker,
    {
        Self { broker }
    }
}

impl<B: MetaDataBroker> HostMetaRetriever for PeerMetaRetriever<B> {
    fn get_host_meta(&self, address: String) -> (res: Result<Option<Host>, CoordinateError>)
        ensures
            res matches Err(e) ==> e is MetaData,
    {
        host_meta_outcome(self.broker.get_peer(address))
    }
}

} // verus!
