//! Server identity and replication bookkeeping: the role, the replication
//! id, the master offset and the master address, plus command-line argument
//! parsing over plain byte strings.
use vstd::prelude::*;

use crate::resp::clone_bytes;

verus! {

pub open spec fn role_master_text() -> Seq<u8> {
    seq![109u8, 97, 115, 116, 101, 114]
}

pub open spec fn role_slave_text() -> Seq<u8> {
    seq![115u8, 108, 97, 118, 101]
}

/// The fixed replication id a master starts with.
pub open spec fn initial_replid_text() -> Seq<u8> {
    seq![56u8, 51, 55, 49, 98, 52, 102, 98, 49, 49, 53, 53, 98, 55, 49, 102, 52, 97, 48, 52, 100,
        51, 101, 49, 98, 99, 51, 101, 49, 56, 99, 52, 97, 57, 57, 48, 97, 101, 101, 98]
}

fn role_master_vec() -> (r: Vec<u8>)
    ensures
        r@ == role_master_text(),
{
    let r: Vec<u8> = vec![109u8, 97, 115, 116, 101, 114];
    proof {
        assert(r@ =~= role_master_text());
    }
    r
}

fn role_slave_vec() -> (r: Vec<u8>)
    ensures
        r@ == role_slave_text(),
{
    let r: Vec<u8> = vec![115u8, 108, 97, 118, 101];
    proof {
        assert(r@ =~= role_slave_text());
    }
    r
}

fn initial_replid_vec() -> (r: Vec<u8>)
    ensures
        r@ == initial_replid_text(),
{
    let r: Vec<u8> = vec![56u8, 51, 55, 49, 98, 52, 102, 98, 49, 49, 53, 53, 98, 55, 49, 102, 52,
        97, 48, 52, 100, 51, 101, 49, 98, 99, 51, 101, 49, 56, 99, 52, 97, 57, 57, 48, 97, 101,
        101, 98];
    proof {
        assert(r@ =~= initial_replid_text());
    }
    r
}

/// The server's identity fields.
pub struct ServerInfoInner {
    role: Vec<u8>,
    master_replid: Vec<u8>,
    master_repl_offset: i64,
    master_host: Option<Vec<u8>>,
}

impl ServerInfoInner {
    pub closed spec fn spec_role(&self) -> Seq<u8> {
        self.role@
    }

    pub closed spec fn spec_replid(&self) -> Seq<u8> {
        self.master_replid@
    }

    pub closed spec fn spec_offset(&self) -> i64 {
        self.master_repl_offset
    }

    pub closed spec fn spec_host(&self) -> Option<Seq<u8>> {
        match self.master_host {
            Option::Some(h) => Option::Some(h@),
            Option::None => Option::None,
        }
    }

    pub fn new(master_host: Option<(Vec<u8>, Vec<u8>)>) -> (r: ServerInfoInner)
        ensures
            match master_host {
                Option::Some(hp) => r.spec_role() == role_slave_text() && r.spec_replid() == seq![
                    63u8,
                ] && r.spec_offset() == -1 && r.spec_host() == Option::Some(
                    hp.0@ + seq![58u8] + hp.1@,
                ),
                Option::None => r.spec_role() == role_master_text() && r.spec_replid()
                    == initial_replid_text() && r.spec_offset() == 0 && r.spec_host() is None,
            },
    {
        match master_host {
            Some(hp) => Self::replica(hp),
            None => Self::master(),
        }
    }

    /// A fresh master: fixed replication id, offset zero.
    pub fn master() -> (r: ServerInfoInner)
        ensures
            r.spec_role() == role_master_text(),
            r.spec_replid() == initial_replid_text(),
            r.spec_offset() == 0,
            r.spec_host() is None,
    {
        ServerInfoInner {
            role: role_master_vec(),
            master_replid: initial_replid_vec(),
            master_repl_offset: 0,
            master_host: None,
        }
    }

    /// A fresh replica: the id and offset are unknown until the handshake
    /// teaches them.
    pub fn replica(master_host: (Vec<u8>, Vec<u8>)) -> (r: ServerInfoInner)
        ensures
            r.spec_role() == role_slave_text(),
            r.spec_replid() == seq![63u8],
            r.spec_offset() == -1,
            r.spec_host() == Option::Some(master_host.0@ + seq![58u8] + master_host.1@),
    {
        let (host, port) = master_host;
        let mut addr = host;
        addr.push(58);
        let ghost mid = addr@;
        let mut i: usize = 0;
        while i < port.len()
            invariant
                0 <= i <= port@.len(),
                addr@ == mid + port@.subrange(0, i as int),
            decreases port@.len() - i,
        {
            addr.push(port[i]);
            i += 1;
            assert(addr@ =~= mid + port@.subrange(0, i as int));
        }
        proof {
            assert(port@.subrange(0, port@.len() as int) =~= port@);
        }
        let q: Vec<u8> = vec![63u8];
        proof {
            assert(q@ =~= seq![63u8]);
        }
        ServerInfoInner {
            role: role_slave_vec(),
            master_replid: q,
            master_repl_offset: -1,
            master_host: Some(addr),
        }
    }

    pub fn get_role(&self) -> (r: Vec<u8>)
        ensures
            r@ == self.spec_role(),
    {
        clone_bytes(&self.role)
    }

    pub fn get_master_replid(&self) -> (r: Vec<u8>)
        ensures
            r@ == self.spec_replid(),
    {
        clone_bytes(&self.master_replid)
    }

    pub fn get_master_repl_offset(&self) -> (r: i64)
        ensures
            r == self.spec_offset(),
    {
        self.master_repl_offset
    }

    pub fn get_master_host(&self) -> (r: Option<Vec<u8>>)
        ensures
            match r {
                Option::Some(h) => self.spec_host() == Option::Some(h@),
                Option::None => self.spec_host() is None,
            },
    {
        match &self.master_host {
            Some(h) => Some(clone_bytes(h)),
            None => None,
        }
    }

    pub fn is_replica(&self) -> (r: bool)
        ensures
            r == (self.spec_role() != role_master_text()),
    {
        let m = role_master_vec();
        !crate::database::bytes_eq(&self.role, &m)
    }

    pub fn set_master_replid(&mut self, replid: Vec<u8>)
        ensures
            final(self).spec_replid() == replid@,
            final(self).spec_role() == old(self).spec_role(),
            final(self).spec_offset() == old(self).spec_offset(),
            final(self).spec_host() == old(self).spec_host(),
    {
        self.master_replid = replid;
    }

    pub fn set_master_repl_offset(&mut self, offset: i64)
        ensures
            final(self).spec_offset() == offset,
            final(self).spec_role() == old(self).spec_role(),
            final(self).spec_replid() == old(self).spec_replid(),
            final(self).spec_host() == old(self).spec_host(),
    {
        self.master_repl_offset = offset;
    }
}

/// The shared server info. Concurrency wrapping lives with the runtime;
/// the contracts here speak of one consistent snapshot.
pub struct ServerInfo {
    inner: ServerInfoInner,
}

impl ServerInfo {
    pub closed spec fn spec_role(&self) -> Seq<u8> {
        self.inner.spec_role()
    }

    pub closed spec fn spec_replid(&self) -> Seq<u8> {
        self.inner.spec_replid()
    }

    pub closed spec fn spec_offset(&self) -> i64 {
        self.inner.spec_offset()
    }

    pub closed spec fn spec_host(&self) -> Option<Seq<u8>> {
        self.inner.spec_host()
    }

    pub fn new(master_host: Option<(Vec<u8>, Vec<u8>)>) -> (r: ServerInfo)
        ensures
            match master_host {
                Option::Some(hp) => r.spec_role() == role_slave_text() && r.spec_replid() == seq![
                    63u8,
                ] && r.spec_offset() == -1 && r.spec_host() == Option::Some(
                    hp.0@ + seq![58u8] + hp.1@,
                ),
                Option::None => r.spec_role() == role_master_text() && r.spec_replid()
                    == initial_replid_text() && r.spec_offset() == 0 && r.spec_host() is None,
            },
    {
        ServerInfo { inner: ServerInfoInner::new(master_host) }
    }

    pub fn master() -> (r: ServerInfo)
        ensures
            r.spec_role() == role_master_text(),
            r.spec_replid() == initial_replid_text(),
            r.spec_offset() == 0,
            r.spec_host() is None,
    {
        ServerInfo { inner: ServerInfoInner::master() }
    }

    pub fn replica(master_host: (Vec<u8>, Vec<u8>)) -> (r: ServerInfo)
        ensures
            r.spec_role() == role_slave_text(),
            r.spec_replid() == seq![63u8],
            r.spec_offset() == -1,
            r.spec_host() == Option::Some(master_host.0@ + seq![58u8] + master_host.1@),
    {
        ServerInfo { inner: ServerInfoInner::replica(master_host) }
    }

    pub fn get_role(&self) -> (r: Vec<u8>)
        ensures
            r@ == self.spec_role(),
    {
        self.inner.get_role()
    }

    pub fn get_master_replid(&self) -> (r: Vec<u8>)
        ensures
            r@ == self.spec_replid(),
    {
        self.inner.get_master_replid()
    }

    pub fn get_master_repl_offset(&self) -> (r: i64)
        ensures
            r == self.spec_offset(),
    {
        self.inner.get_master_repl_offset()
    }

    pub fn get_master_host(&self) -> (r: Option<Vec<u8>>)
        ensures
            match r {
                Option::Some(h) => self.spec_host() == Option::Some(h@),
                Option::None => self.spec_host() is None,
            },
    {
        self.inner.get_master_host()
    }

    pub fn is_replica(&self) -> (r: bool)
        ensures
            r == (self.spec_role() != role_master_text()),
    {
        self.inner.is_replica()
    }

    pub fn set_master_replid(&mut self, replid: Vec<u8>)
        ensures
            final(self).spec_replid() == replid@,
            final(self).spec_role() == old(self).spec_role(),
            final(self).spec_offset() == old(self).spec_offset(),
            final(self).spec_host() == old(self).spec_host(),
    {
        self.inner.set_master_replid(replid);
    }

    pub fn set_master_repl_offset(&mut self, offset: i64)
        ensures
            final(self).spec_offset() == offset,
            final(self).spec_role() == old(self).spec_role(),
            final(self).spec_replid() == old(self).spec_replid(),
            final(self).spec_host() == old(self).spec_host(),
    {
        self.inner.set_master_repl_offset(offset);
    }

    /// Advance the observed master offset by a byte count.
    pub fn incr_master_repl_offset(&mut self, delta: i64)
        requires
            i64::MIN <= old(self).spec_offset() + delta <= i64::MAX,
        ensures
            final(self).spec_offset() == old(self).spec_offset() + delta,
            final(self).spec_role() == old(self).spec_role(),
            final(self).spec_replid() == old(self).spec_replid(),
            final(self).spec_host() == old(self).spec_host(),
    {
        let cur = self.inner.get_master_repl_offset();
        self.inner.set_master_repl_offset(cur + delta);
    }
}

} // verus!

verus! {

pub open spec fn flag_port_text() -> Seq<u8> {
    seq![45u8, 45, 112, 111, 114, 116]
}

pub open spec fn flag_replicaof_text() -> Seq<u8> {
    seq![45u8, 45, 114, 101, 112, 108, 105, 99, 97, 111, 102]
}

pub open spec fn default_port_text() -> Seq<u8> {
    seq![54u8, 51, 55, 57]
}

pub open spec fn default_host_text() -> Seq<u8> {
    seq![49u8, 50, 55, 46, 48, 46, 48, 46, 49]
}

/// Views of each argument string.
pub open spec fn arg_views(args: Seq<Vec<u8>>) -> Seq<Seq<u8>> {
    Seq::new(
        args.len(),
        |i: int|
            if 0 <= i < args.len() {
                args[i]@
            } else {
                Seq::<u8>::empty()
            },
    )
}

/// The left-to-right scan of the command line: `--port` takes the next
/// argument as the port, `--replicaof` takes the next two as the master's
/// host and port, anything else is ignored.
pub open spec fn spec_scan_args(
    args: Seq<Seq<u8>>,
    i: int,
    port: Seq<u8>,
    replica_of: Option<(Seq<u8>, Seq<u8>)>,
) -> (Seq<u8>, Option<(Seq<u8>, Seq<u8>)>)
    decreases args.len() - i,
{
    if i < 0 || i >= args.len() {
        (port, replica_of)
    } else if args[i] == flag_port_text() {
        if i + 1 < args.len() {
            spec_scan_args(args, i + 2, args[i + 1], replica_of)
        } else {
            (port, replica_of)
        }
    } else if args[i] == flag_replicaof_text() {
        if i + 2 < args.len() {
            spec_scan_args(args, i + 3, port, Option::Some((args[i + 1], args[i + 2])))
        } else {
            (port, replica_of)
        }
    } else {
        spec_scan_args(args, i + 1, port, replica_of)
    }
}

/// The listening address settings taken from the command line.
pub struct ServerArguments {
    pub host: Vec<u8>,
    pub port: Vec<u8>,
    pub replica_of: Option<(Vec<u8>, Vec<u8>)>,
}

impl ServerArguments {
    pub open spec fn spec_replica_of(&self) -> Option<(Seq<u8>, Seq<u8>)> {
        match self.replica_of {
            Option::Some(hp) => Option::Some((hp.0@, hp.1@)),
            Option::None => Option::None,
        }
    }

    /// Scan the arguments after the executable name. The host is fixed;
    /// the port defaults until a flag overrides it.
    pub fn parse(args: Vec<Vec<u8>>) -> (r: ServerArguments)
        ensures
            r.host@ == default_host_text(),
            (r.port@, r.spec_replica_of()) == spec_scan_args(
                arg_views(args@),
                0,
                default_port_text(),
                Option::None,
            ),
    {
        let ghost vs = arg_views(args@);
        let flag_port: Vec<u8> = vec![45u8, 45, 112, 111, 114, 116];
        let flag_repl: Vec<u8> = vec![45u8, 45, 114, 101, 112, 108, 105, 99, 97, 111, 102];
        proof {
            assert(flag_port@ =~= flag_port_text());
            assert(flag_repl@ =~= flag_replicaof_text());
        }
        let mut port: Vec<u8> = vec![54u8, 51, 55, 57];
        proof {
            assert(port@ =~= default_port_text());
        }
        let mut replica_of: Option<(Vec<u8>, Vec<u8>)> = None;
        let n = args.len();
        let mut i: usize = 0;
        while i < n
            invariant
                0 <= i <= n,
                n == args@.len(),
                vs == arg_views(args@),
                flag_port@ == flag_port_text(),
                flag_repl@ == flag_replicaof_text(),
                spec_scan_args(vs, 0, default_port_text(), Option::None) == spec_scan_args(
                    vs,
                    i as int,
                    port@,
                    match replica_of {
                        Option::Some(hp) => Option::Some((hp.0@, hp.1@)),
                        Option::None => Option::None,
                    },
                ),
            decreases n - i,
        {
            proof {
                assert(vs[i as int] == args@[i as int]@);
            }
            if crate::database::bytes_eq(&args[i], &flag_port) {
                if i + 1 < n {
                    proof {
                        assert(vs[i as int + 1] == args@[i as int + 1]@);
                    }
                    port = clone_bytes(&args[i + 1]);
                    i += 2;
                } else {
                    proof {
                        assert(spec_scan_args(
                            vs,
                            i as int,
                            port@,
                            match replica_of {
                                Option::Some(hp) => Option::Some((hp.0@, hp.1@)),
                                Option::None => Option::None,
                            },
                        ) == (port@, match replica_of {
                            Option::Some(hp) => Option::Some((hp.0@, hp.1@)),
                            Option::None => Option::None,
                        }));
                    }
                    return ServerArguments {
                        host: Self::default_host(),
                        port,
                        replica_of,
                    };
                }
            } else if crate::database::bytes_eq(&args[i], &flag_repl) {
                if n - i > 2 {
                    proof {
                        assert(vs[i as int + 1] == args@[i as int + 1]@);
                        assert(vs[i as int + 2] == args@[i as int + 2]@);
                    }
                    replica_of = Some((clone_bytes(&args[i + 1]), clone_bytes(&args[i + 2])));
                    i += 3;
                } else {
                    proof {
                        assert(spec_scan_args(
                            vs,
                            i as int,
                            port@,
                            match replica_of {
                                Option::Some(hp) => Option::Some((hp.0@, hp.1@)),
                                Option::None => Option::None,
                            },
                        ) == (port@, match replica_of {
                            Option::Some(hp) => Option::Some((hp.0@, hp.1@)),
                            Option::None => Option::None,
                        }));
                    }
                    return ServerArguments {
                        host: Self::default_host(),
                        port,
                        replica_of,
                    };
                }
            } else {
                i += 1;
            }
        }
        ServerArguments { host: Self::default_host(), port, replica_of }
    }

    fn default_host() -> (r: Vec<u8>)
        ensures
            r@ == default_host_text(),
    {
        let r: Vec<u8> = vec![49u8, 50, 55, 46, 48, 46, 48, 46, 49];
        proof {
            assert(r@ =~= default_host_text());
        }
        r
    }

    pub fn is_replica(&self) -> (r: bool)
        ensures
            r == self.spec_replica_of() is Some,
    {
        self.replica_of.is_some()
    }
}

} // verus!
