//! The engine: the in-memory key/value store and the commands run on it.

use vstd::prelude::*;
use vstd::string::*;
use crate::cli::Arguments;
use crate::cmd::{Command, SpecCommand};
use crate::db::{Db, join_path};
use crate::frame::{Frame, SpecFrame};
use crate::store::Store;
use crate::text::{ascii_words, split_ascii_whitespace, strings_view};
use crate::utils::Role;

verus! {

/// What running `cmd` on a store holding `m` leaves in the store and
/// answers: `SET` stores the value and answers `OK`; `GET` answers the
/// stored value, or null; `PING` answers its message, or `PONG`; an unknown
/// command answers `OK`.  Only `SET` changes the store.
pub open spec fn spec_execute(m: Map<Seq<char>, Seq<u8>>, cmd: SpecCommand) -> (
    Map<Seq<char>, Seq<u8>>,
    SpecFrame,
) {
    match cmd {
        SpecCommand::SetValue(k, v) => (m.insert(k, v), SpecFrame::Simple("OK"@)),
        SpecCommand::Get(k) => (
            m,
            if m.contains_key(k) {
                SpecFrame::Bulk(m[k])
            } else {
                SpecFrame::Null
            },
        ),
        SpecCommand::Ping(msg) => (
            m,
            match msg {
                Some(b) => SpecFrame::Bulk(b),
                None => SpecFrame::Simple("PONG"@),
            },
        ),
        SpecCommand::Unknown(_) => (m, SpecFrame::Simple("OK"@)),
    }
}

/// The replication id a master starts with.
pub open spec fn master_id() -> Seq<char> {
    "8371b4fb1155b71f4a04d3e1bc3e18c4a990aeeb"@
}

/// The key/value engine with its settings.
#[derive(Debug)]
pub struct Engine {
    memory: Store<Vec<u8>>,
    arguments: Arguments,
    rdb_file: String,
    rdb_path: String,
    db: Db,
    role: Role,
}

impl View for Engine {
    type V = Map<Seq<char>, Seq<u8>>;

    /// The stored pairs.
    closed spec fn view(&self) -> Map<Seq<char>, Seq<u8>> {
        self.memory.map().map_values(|v: Vec<u8>| v@)
    }
}

impl Engine {
    /// The name of the snapshot file.
    pub closed spec fn rdb_file(&self) -> Seq<char> {
        self.rdb_file@
    }

    /// The directory of the snapshot file.
    pub closed spec fn rdb_path(&self) -> Seq<char> {
        self.rdb_path@
    }

    /// The path of the snapshot file.
    pub closed spec fn db_file(&self) -> Seq<char> {
        self.db@
    }

    /// The options the engine was started with.
    pub closed spec fn arguments(&self) -> Map<Seq<char>, Seq<char>> {
        self.arguments@
    }

    /// The replication role, as `(is_replica, first, second)`: a replica's
    /// master host and port, or a master's id and an empty second part.
    pub closed spec fn role(&self) -> (bool, Seq<char>, Seq<char>) {
        match self.role {
            Role::Slave(h, p) => (true, h@, p@),
            Role::Master(id) => (false, id@, Seq::empty()),
        }
    }

    /// An engine with an empty store, set up from the options: the snapshot
    /// file is `--dbfilename` (default `dump.rdb`) in `--dir` (default
    /// `/tmp`), and `--replicaof "host port"` makes a replica of that
    /// master (its first two words); without it the engine is a master.  A
    /// `--replicaof` value of fewer than two words is outside the domain.
    pub fn init(args: Arguments) -> (res: Engine)
        requires
            args@.contains_key("replicaof"@) ==> ascii_words(args@["replicaof"@]).len() >= 2,
        ensures
            res@ == Map::<Seq<char>, Seq<u8>>::empty(),
            res.arguments() == args@,
            res.rdb_file() == if args@.contains_key("dbfilename"@) {
                args@["dbfilename"@]
            } else {
                "dump.rdb"@
            },
            res.rdb_path() == if args@.contains_key("dir"@) {
                args@["dir"@]
            } else {
                "/tmp"@
            },
            res.db_file() == join_path(res.rdb_path(), res.rdb_file()),
            res.role() == if args@.contains_key("replicaof"@) {
                (
                    true,
                    ascii_words(args@["replicaof"@])[0],
                    ascii_words(args@["replicaof"@])[1],
                )
            } else {
                (false, master_id(), Seq::<char>::empty())
            },
    {
        let mut rdb_file = String::from_str("dump.rdb");
        let mut rdb_path = String::from_str("/tmp");
        match args.get_arg(String::from_str("dbfilename")) {
            Some(val) => {
                rdb_file = val.clone();
            },
            None => {},
        }
        match args.get_arg(String::from_str("dir")) {
            Some(val) => {
                rdb_path = val.clone();
            },
            None => {},
        }
        let rdb_path_db = rdb_path.clone();
        let rdb_file_db = rdb_file.clone();
        let mut role = Role::Master(String::from_str("8371b4fb1155b71f4a04d3e1bc3e18c4a990aeeb"));
        match args.get_arg(String::from_str("replicaof")) {
            Some(val) => {
                let master_details = split_ascii_whitespace(val.as_str());
                assert(strings_view(master_details@)[0] == master_details@[0]@);
                assert(strings_view(master_details@)[1] == master_details@[1]@);
                role = Role::Slave(master_details[0].clone(), master_details[1].clone());
            },
            None => {},
        }
        let memory: Store<Vec<u8>> = Store::new();
        assert(memory.map().map_values(|v: Vec<u8>| v@) =~= Map::<Seq<char>, Seq<u8>>::empty());
        Engine {
            memory,
            rdb_file,
            rdb_path,
            arguments: args,
            db: Db::new(rdb_path_db, rdb_file_db),
            role,
        }
    }

    /// Runs a command on the store and gives the answer (see
    /// [`spec_execute`]); the settings stay as they are.
    pub fn execute(&mut self, cmd: Command) -> (res: Frame)
        ensures
            (final(self)@, res@) == spec_execute(old(self)@, cmd@),
            final(self).rdb_file() == old(self).rdb_file(),
            final(self).rdb_path() == old(self).rdb_path(),
            final(self).db_file() == old(self).db_file(),
            final(self).arguments() == old(self).arguments(),
            final(self).role() == old(self).role(),
    {
        match cmd {
            Command::SetValue(set) => {
                let ghost before = self.memory.map();
                self.memory.insert(set.key().clone(), set.value().clone());
                assert(self.memory.map().map_values(|v: Vec<u8>| v@) =~= before.map_values(
                    |v: Vec<u8>| v@,
                ).insert(set@.0, set@.1));
                Frame::Simple(String::from_str("OK"))
            },
            Command::Get(get) => {
                match self.memory.get(get.key()) {
                    Some(result) => Frame::Bulk(result.clone()),
                    None => Frame::Null,
                }
            },
            Command::Ping(ping) => {
                match ping.msg {
                    Some(msg) => Frame::Bulk(msg),
                    None => Frame::Simple(String::from_str("PONG")),
                }
            },
            Command::Unknown(_) => Frame::Simple(String::from_str("OK")),
        }
    }
}

/// Law: a `GET` of a key just `SET` answers the value that was set.
pub proof fn lemma_get_after_set(m: Map<Seq<char>, Seq<u8>>, k: Seq<char>, v: Seq<u8>)
    ensures
        spec_execute(spec_execute(m, SpecCommand::SetValue(k, v)).0, SpecCommand::Get(k)).1
            == SpecFrame::Bulk(v),
{
}

/// Law: a `SET` of one key leaves what a `GET` of another key answers.
pub proof fn lemma_set_keeps_other_keys(
    m: Map<Seq<char>, Seq<u8>>,
    k: Seq<char>,
    v: Seq<u8>,
    other: Seq<char>,
)
    requires
        other != k,
    ensures
        spec_execute(spec_execute(m, SpecCommand::SetValue(k, v)).0, SpecCommand::Get(other)).1
            == spec_execute(m, SpecCommand::Get(other)).1,
{
}

/// Law: a second `SET` of a key overrides the first.
pub proof fn lemma_last_set_wins(
    m: Map<Seq<char>, Seq<u8>>,
    k: Seq<char>,
    v1: Seq<u8>,
    v2: Seq<u8>,
)
    ensures
        spec_execute(spec_execute(m, SpecCommand::SetValue(k, v1)).0, SpecCommand::SetValue(k, v2)).0
            == spec_execute(m, SpecCommand::SetValue(k, v2)).0,
{
    assert(m.insert(k, v1).insert(k, v2) =~= m.insert(k, v2));
}

/// Law: every command other than `SET` leaves the store as it is.
pub proof fn lemma_only_set_writes(m: Map<Seq<char>, Seq<u8>>, cmd: SpecCommand)
    requires
        !(cmd is SetValue),
    ensures
        spec_execute(m, cmd).0 == m,
{
}

/// Law: every `SET` is answered `OK`, whatever the store held before,
/// whether the key was new or already there.
pub proof fn lemma_set_answers_ok(m: Map<Seq<char>, Seq<u8>>, k: Seq<char>, v: Seq<u8>)
    ensures
        spec_execute(m, SpecCommand::SetValue(k, v)).1 == SpecFrame::Simple("OK"@),
{
}

/// Law: the answer to a `SET` does not depend on the store it runs on.
pub proof fn lemma_set_answer_independent_of_store(
    m1: Map<Seq<char>, Seq<u8>>,
    m2: Map<Seq<char>, Seq<u8>>,
    k: Seq<char>,
    v: Seq<u8>,
)
    ensures
        spec_execute(m1, SpecCommand::SetValue(k, v)).1 == spec_execute(
            m2,
            SpecCommand::SetValue(k, v),
        ).1,
{
}

} // verus!
