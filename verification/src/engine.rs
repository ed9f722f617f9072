//! The persistence and recovery engine.
//!
//! A [`Database`] owns the in-memory state, the version counter, and the
//! model of the store directory.  The invariant it maintains is the heart of
//! the design: the directory always holds a version pointer naming a version
//! whose checkpoint and log both exist and are well formed, and the in-memory
//! state always equals the checkpoint state with the log replayed over it.
//! Recovery ([`Database::open`]) is verified to reconstruct exactly that
//! state ([`spec_recover`]).
//!
//! File I/O never happens here: `open` is handed the directory contents, and
//! every change to the directory is reported as [`FsAction`] values that the
//! unverified shell replays on disk.  The one effect the engine cannot
//! perform itself — the durable append of a log record — is done by the
//! caller between [`Database::prepare_update`] and [`Database::update`], and
//! its outcome is handed back in as the `appended` argument.

use vstd::prelude::*;

use crate::dir::{apply_actions, lemma_apply_actions_snoc, Dir, FsAction};
use crate::errors::StoreError;
use crate::names::{checkpoint_name, log_name, make_checkpoint_name, make_log_name,
    make_staging_name, make_version_name, name_outdated, outdated_name, staging_name,
    version_name, lemma_store_names};
use crate::num::{dec_bytes, parse_dec_bytes, parse_version_bytes, u64_to_dec_vec,
    lemma_parse_dec_bytes_round_trip};
use crate::traits::{DataFormat, Readable, Updateable};

verus! {

/// Replays a sequence of update records over a base state, in order.
pub open spec fn replay<T: Updateable>(
    base: <T as View>::V,
    rs: Seq<<<T as Updateable>::Args as View>::V>,
) -> <T as View>::V
    decreases rs.len(),
{
    if rs.len() == 0 {
        base
    } else {
        replay::<T>(T::apply_spec(base, rs[0]), rs.skip(1))
    }
}

pub proof fn lemma_replay_snoc<T: Updateable>(
    base: <T as View>::V,
    rs: Seq<<<T as Updateable>::Args as View>::V>,
    a: <<T as Updateable>::Args as View>::V,
)
    ensures
        replay::<T>(base, rs.push(a)) == T::apply_spec(replay::<T>(base, rs), a),
    decreases rs.len(),
{
    if rs.len() == 0 {
        assert(rs.push(a).skip(1) =~= Seq::<<<T as Updateable>::Args as View>::V>::empty());
        assert(rs.push(a)[0] == a);
        assert(replay::<T>(
            T::apply_spec(base, a),
            Seq::<<<T as Updateable>::Args as View>::V>::empty(),
        ) == T::apply_spec(base, a));
        assert(replay::<T>(base, rs) == base);
    } else {
        assert(rs.push(a)[0] == rs[0]);
        assert(rs.push(a).skip(1) =~= rs.skip(1).push(a));
        lemma_replay_snoc::<T>(T::apply_spec(base, rs[0]), rs.skip(1), a);
    }
}

/// The version pointer bytes recovery goes by: the staging file, if one was
/// left behind by an interrupted commit, supersedes the pointer file, since
/// the staged value was durably written before the rename began.
pub open spec fn effective_version_bytes(d: Map<Seq<char>, Seq<u8>>) -> Option<Seq<u8>> {
    if d.contains_key(staging_name()) {
        Some(d[staging_name()])
    } else if d.contains_key(version_name()) {
        Some(d[version_name()])
    } else {
        None
    }
}

/// What opening an existing directory recovers: the committed version and
/// the checkpoint state with the log's parseable records replayed over it.
/// `None` when the directory cannot be recovered from.
pub open spec fn spec_recover<T: Readable + Updateable, F: DataFormat<Data = T>>(
    d: Map<Seq<char>, Seq<u8>>,
) -> Option<(u64, <T as View>::V)> {
    match effective_version_bytes(d) {
        None => None,
        Some(vb) => match parse_dec_bytes(vb) {
            None => None,
            Some(v) => if !d.contains_key(checkpoint_name(v)) {
                None
            } else {
                match F::spec_parse_data(d[checkpoint_name(v)]) {
                    None => None,
                    Some(base) => if !d.contains_key(log_name(v)) {
                        None
                    } else {
                        Some((v, replay::<T>(base, F::spec_parse_records(d[log_name(v)]))))
                    },
                }
            },
        },
    }
}

/// The error opening an unrecoverable directory fails with: a missing or
/// unparseable version pointer, then a missing or malformed checkpoint, then
/// a missing log file.
pub open spec fn spec_open_err<T: Readable + Updateable, F: DataFormat<Data = T>>(
    d: Map<Seq<char>, Seq<u8>>,
) -> StoreError {
    match effective_version_bytes(d) {
        None => StoreError::CorruptVersion,
        Some(vb) => match parse_dec_bytes(vb) {
            None => StoreError::CorruptVersion,
            Some(v) => if !d.contains_key(checkpoint_name(v)) {
                StoreError::CorruptCheckpoint
            } else {
                match F::spec_parse_data(d[checkpoint_name(v)]) {
                    None => StoreError::CorruptCheckpoint,
                    Some(base) => StoreError::IoFailure,
                }
            },
        },
    }
}

/// A store: the live state, the serialization strategy, the directory path,
/// the committed version, and the model of the directory contents.
pub struct Database<T, F> {
    data: T,
    fmt: F,
    path: String,
    version: u64,
    dir: Dir,
}

/// What a successful open returns: the database, the file operations the
/// caller must replay on the real directory, and whether replay stopped at a
/// torn log tail (the non-fatal truncated-log warning).
pub struct OpenOutcome<T, F> {
    pub db: Database<T, F>,
    pub actions: Vec<FsAction>,
    pub log_truncated: bool,
}

impl<T, F> Database<T, F> where T: Readable + Updateable, F: DataFormat<Data = T> {
    /// The committed version.
    pub closed spec fn spec_version(&self) -> u64 {
        self.version
    }

    /// The abstract in-memory state.
    pub closed spec fn spec_data(&self) -> <T as View>::V {
        self.data@
    }

    /// The modeled directory contents.
    pub closed spec fn spec_dir(&self) -> Map<Seq<char>, Seq<u8>> {
        self.dir@
    }

    /// The directory path.
    pub closed spec fn spec_path(&self) -> Seq<char> {
        self.path@
    }

    /// The engine's invariant: the version pointer parses to the committed
    /// version, no staging file lingers, checkpoint and log of that version
    /// exist and are well formed, and the state equals the checkpoint state
    /// with the log replayed.
    pub closed spec fn inv(&self) -> bool {
        &&& self.dir@.contains_key(version_name())
        &&& parse_dec_bytes(self.dir@[version_name()]) == Some(self.version)
        &&& !self.dir@.contains_key(staging_name())
        &&& self.dir@.contains_key(checkpoint_name(self.version))
        &&& F::spec_parse_data(self.dir@[checkpoint_name(self.version)]) is Some
        &&& self.dir@.contains_key(log_name(self.version))
        &&& F::log_complete(self.dir@[log_name(self.version)])
        &&& self.data@ == replay::<T>(
            F::spec_parse_data(self.dir@[checkpoint_name(self.version)])->0,
            F::spec_parse_records(self.dir@[log_name(self.version)]),
        )
    }

    /// The committed version.  The disk shell reads it to guard against the
    /// version counter reaching its ceiling before a checkpoint.
    pub fn version(&self) -> (r: u64)
        ensures
            r == self.spec_version(),
    {
        self.version
    }

    /// The store directory's path.
    pub fn path(&self) -> (r: &String)
        ensures
            r@ == self.spec_path(),
    {
        &self.path
    }

    /// Dispatches a read operation against the current state.  Reads never
    /// touch the directory.
    pub fn read(&self, parameters: &<T as Readable>::Args) -> (r: <T as Readable>::ReturnType)
        ensures
            r@ == T::read_spec(self.spec_data(), parameters@),
    {
        self.data.read(parameters)
    }

    /// Read-only access to the whole current state.
    pub fn read_all(&self) -> (r: &T)
        ensures
            r@ == self.spec_data(),
    {
        &self.data
    }

    /// The name of the current log file: the file the caller must append
    /// prepared records to.
    pub fn log_filename(&self) -> (r: String)
        ensures
            r@ == log_name(self.spec_version()),
    {
        make_log_name(self.version)
    }

    /// Serializes one update record.  The caller appends the returned bytes
    /// durably to the current log file, then reports the outcome to
    /// [`Database::update`].
    pub fn prepare_update(&self, parameters: &<T as Updateable>::Args) -> (r: Result<
        Vec<u8>,
        StoreError,
    >)
        ensures
            (match r {
                Ok(b) => F::record_ok(parameters@) && b@ == F::spec_record_bytes(parameters@),
                Err(e) => !F::record_ok(parameters@) && e == StoreError::IoFailure,
            }),
    {
        match self.fmt.serialize_params(parameters) {
            Ok(b) => Ok(b),
            Err(_) => Err(StoreError::IoFailure),
        }
    }

    /// Applies one update.  `appended` reports whether the caller durably
    /// appended the prepared record to the current log file; the update is
    /// applied only after that durable append succeeded, and a failed append
    /// leaves the store exactly as it was: an update either durably commits
    /// and applies, or has no effect at all.
    pub fn update(&mut self, parameters: &<T as Updateable>::Args, appended: bool) -> (r: Result<
        <T as Updateable>::ReturnType,
        StoreError,
    >)
        requires
            old(self).inv(),
        ensures
            final(self).inv(),
            final(self).spec_path() == old(self).spec_path(),
            final(self).spec_version() == old(self).spec_version(),
            (match r {
                Ok(ret) => {
                    &&& appended
                    &&& F::record_ok(parameters@)
                    &&& ret@ == T::ret_spec(old(self).spec_data(), parameters@)
                    &&& final(self).spec_data() == T::apply_spec(old(self).spec_data(), parameters@)
                    &&& final(self).spec_dir() == old(self).spec_dir().insert(
                        log_name(old(self).spec_version()),
                        old(self).spec_dir()[log_name(old(self).spec_version())]
                            + F::spec_record_bytes(parameters@),
                    )
                },
                Err(e) => {
                    &&& e == StoreError::IoFailure
                    &&& !(appended && F::record_ok(parameters@))
                    &&& *final(self) == *old(self)
                },
            }),
    {
        let bytes = match self.fmt.serialize_params(parameters) {
            Ok(b) => b,
            Err(_) => {
                return Err(StoreError::IoFailure);
            },
        };
        if !appended {
            return Err(StoreError::IoFailure);
        }
        let ghost v = self.version;
        let ghost oldlog = self.dir@[log_name(v)];
        let ln = make_log_name(self.version);
        self.dir.append_file(ln.as_str(), bytes.as_slice());
        let ret = self.data.update(parameters);
        proof {
            lemma_store_names(v, v);
            assert(F::log_complete(oldlog));
            assert(F::spec_parse_records(oldlog + bytes@) =~= F::spec_parse_records(oldlog).push(
                parameters@,
            ));
            lemma_replay_snoc::<T>(
                F::spec_parse_data(old(self).dir@[checkpoint_name(v)])->0,
                F::spec_parse_records(oldlog),
                parameters@,
            );
            assert(self.dir@[checkpoint_name(v)] == old(self).dir@[checkpoint_name(v)]);
            assert(self.dir@[version_name()] == old(self).dir@[version_name()]);
        }
        Ok(ret)
    }

    /// Whether a file of this name is superseded at the current version: the
    /// staging pointer file, or a checkpoint or log file of an older version.
    pub fn is_outdated_file(&self, filename: &str) -> (r: bool)
        ensures
            r == outdated_name(filename@, self.spec_version()),
    {
        name_outdated(filename, self.version)
    }

    /// Advances the version by one, writes the full state as the new
    /// checkpoint, starts a new empty log, atomically commits the new version
    /// pointer (staging write, then rename), and removes files of older
    /// versions.  After it, the state is unchanged, the new log is empty, and
    /// no file of an older version remains in the directory model; on the
    /// real directory the removals are best-effort.
    pub fn create_checkpoint(&mut self) -> (r: Result<Vec<FsAction>, StoreError>)
        requires
            old(self).inv(),
            old(self).spec_version() < u64::MAX,
        ensures
            final(self).inv(),
            final(self).spec_path() == old(self).spec_path(),
            (match r {
                Ok(acts) => {
                    &&& F::data_ok(old(self).spec_data())
                    &&& final(self).spec_version() == old(self).spec_version() + 1
                    &&& final(self).spec_data() == old(self).spec_data()
                    &&& final(self).spec_dir() == apply_actions(old(self).spec_dir(), acts@)
                    &&& final(self).spec_dir().contains_key(
                        checkpoint_name(final(self).spec_version()),
                    )
                    &&& final(self).spec_dir()[checkpoint_name(final(self).spec_version())]
                        == F::spec_data_bytes(old(self).spec_data())
                    &&& final(self).spec_dir().contains_key(log_name(final(self).spec_version()))
                    &&& final(self).spec_dir()[log_name(final(self).spec_version())] == Seq::<
                        u8,
                    >::empty()
                    &&& (forall|n: Seq<char>|
                        outdated_name(n, final(self).spec_version())
                            ==> !final(self).spec_dir().contains_key(n))
                    &&& (forall|n: Seq<char>|
                        #[trigger] final(self).spec_dir().contains_key(n) && n != checkpoint_name(
                            final(self).spec_version(),
                        ) && n != log_name(final(self).spec_version()) && n != version_name()
                            ==> old(self).spec_dir().contains_key(n) && final(self).spec_dir()[n]
                            == old(self).spec_dir()[n])
                    &&& (forall|n: Seq<char>|
                        #[trigger] old(self).spec_dir().contains_key(n) && !outdated_name(
                            n,
                            final(self).spec_version(),
                        ) && n != checkpoint_name(final(self).spec_version()) && n != log_name(
                            final(self).spec_version(),
                        ) && n != version_name() ==> final(self).spec_dir().contains_key(n))
                },
                Err(e) => {
                    &&& *final(self) == *old(self)
                    &&& e == StoreError::IoFailure
                    &&& !F::data_ok(old(self).spec_data())
                },
            }),
    {
        let ser = match self.fmt.serialize_data(&self.data) {
            Ok(b) => b,
            Err(_) => {
                return Err(StoreError::IoFailure);
            },
        };
        let newv = self.version + 1;
        self.version = newv;
        let ghost d_start = self.dir@;
        let mut acts: Vec<FsAction> = Vec::new();
        proof {
            assert(acts@ =~= Seq::<FsAction>::empty());
            assert(apply_actions(d_start, acts@) == d_start);
            lemma_store_names(newv, newv);
            lemma_store_names(old(self).version, newv);
            lemma_parse_dec_bytes_round_trip(newv);
        }
        // the new checkpoint file
        let cpn = make_checkpoint_name(newv);
        self.dir.put(cpn.as_str(), ser.as_slice());
        let act = FsAction::WriteFile { name: cpn, contents: ser };
        proof {
            lemma_apply_actions_snoc(d_start, acts@, act);
        }
        acts.push(act);
        // the new, empty log file
        let ln = make_log_name(newv);
        let lempty: Vec<u8> = Vec::new();
        self.dir.put(ln.as_str(), lempty.as_slice());
        let act = FsAction::WriteFile { name: ln, contents: lempty };
        proof {
            lemma_apply_actions_snoc(d_start, acts@, act);
        }
        acts.push(act);
        // the atomic version commit: durable staging write, then rename
        let sn = make_staging_name();
        let vn = make_version_name();
        let vb = u64_to_dec_vec(newv);
        self.dir.put(sn.as_str(), vb.as_slice());
        let act = FsAction::WriteFile { name: sn.clone(), contents: vb };
        proof {
            lemma_apply_actions_snoc(d_start, acts@, act);
        }
        acts.push(act);
        self.dir.rename(sn.as_str(), vn.as_str());
        let act = FsAction::Rename { from: sn, to: vn };
        proof {
            lemma_apply_actions_snoc(d_start, acts@, act);
        }
        acts.push(act);
        // best-effort retention: remove files of versions below the new one
        let ghost d0 = self.dir@;
        proof {
            assert(d0.contains_key(checkpoint_name(newv)));
            assert(F::spec_parse_data(d0[checkpoint_name(newv)]) == Some(old(self).data@));
            assert(d0.contains_key(log_name(newv)));
            assert(d0[log_name(newv)] =~= Seq::<u8>::empty());
            assert(d0.contains_key(version_name()));
            assert(d0[version_name()] == dec_bytes(newv as nat));
            assert(!d0.contains_key(staging_name()));
        }
        let names = self.dir.name_list();
        let ghost nms = names@;
        let mut i: usize = 0;
        while i < names.len()
            invariant
                0 <= i <= nms.len(),
                names@ == nms,
                self.version == newv,
                self.data == old(self).data,
                self.path == old(self).path,
                self.dir@ == apply_actions(old(self).dir@, acts@),
                forall|n: Seq<char>|
                    #[trigger] self.dir@.contains_key(n) ==> d0.contains_key(n) && self.dir@[n]
                        == d0[n],
                forall|n: Seq<char>|
                    #[trigger] d0.contains_key(n) && !outdated_name(n, newv)
                        ==> self.dir@.contains_key(n),
                forall|j: int|
                    0 <= j < i && outdated_name(#[trigger] nms[j]@, newv)
                        ==> !self.dir@.contains_key(nms[j]@),
            decreases nms.len() - i,
        {
            let outd = self.is_outdated_file(names[i].as_str());
            if outd {
                self.dir.remove_file(names[i].as_str());
                let act = FsAction::RemoveFile { name: names[i].clone() };
                proof {
                    lemma_apply_actions_snoc(old(self).dir@, acts@, act);
                }
                acts.push(act);
            }
            i = i + 1;
        }
        proof {
            // every outdated file was enumerated and removed
            assert forall|n: Seq<char>| outdated_name(n, newv) implies !self.dir@.contains_key(
                n,
            ) by {
                if self.dir@.contains_key(n) {
                    assert(d0.contains_key(n));
                    let j = choose|j: int| 0 <= j < nms.len() && nms[j]@ == n;
                    assert(!self.dir@.contains_key(nms[j]@));
                }
            }
            assert(d0.contains_key(version_name()) && !outdated_name(version_name(), newv));
            assert(self.dir@.contains_key(version_name()));
            assert(self.dir@[version_name()] == dec_bytes(newv as nat));
            assert(d0.contains_key(checkpoint_name(newv)) && !outdated_name(
                checkpoint_name(newv),
                newv,
            ));
            assert(self.dir@.contains_key(checkpoint_name(newv)));
            assert(d0.contains_key(log_name(newv)) && !outdated_name(log_name(newv), newv));
            assert(self.dir@.contains_key(log_name(newv)));
            assert(F::spec_parse_data(self.dir@[checkpoint_name(newv)]) == Some(old(self).data@));
            assert forall|n: Seq<char>|
                old(self).dir@.contains_key(n) && !outdated_name(n, newv) && n != checkpoint_name(
                    newv,
                ) && n != log_name(newv) && n != version_name() implies self.dir@.contains_key(
                n,
            ) by {
                assert(n != staging_name());
                assert(d0.contains_key(n));
            }
            F::lemma_empty_log();
            assert(F::spec_parse_records(self.dir@[log_name(newv)]) =~= Seq::<
                <<T as Updateable>::Args as View>::V,
            >::empty());
            assert(replay::<T>(
                old(self).data@,
                Seq::<<<T as Updateable>::Args as View>::V>::empty(),
            ) == old(self).data@);
        }
        Ok(acts)
    }

    /// Opens the store at `path`.  The caller hands in the current contents
    /// of the directory, or `None` if the directory does not exist.
    ///
    /// On a missing directory, a fresh store is created: version 0, the
    /// initial state, its checkpoint, an empty log, and the version pointer.
    /// On an existing directory, a rename interrupted mid-commit is finished
    /// first, then the committed version's checkpoint is loaded and its log
    /// replayed; a malformed record truncates replay there, the records
    /// before it are kept, the log file is rewritten to the well-formed
    /// prefix, and `log_truncated` reports the condition as a warning.
    ///
    /// The caller must replay the returned actions on the real directory.
    pub fn open(path: &str, existing: Option<Dir>, fmt: F) -> (r: Result<
        OpenOutcome<T, F>,
        StoreError,
    >)
        ensures
            (match r {
                Ok(o) => {
                    &&& o.db.inv()
                    &&& o.db.spec_path() == path@
                    &&& (match existing {
                        None => {
                            &&& o.db.spec_version() == 0
                            &&& o.db.spec_data() == T::init_spec()
                            &&& F::data_ok(T::init_spec())
                            &&& o.log_truncated == false
                            &&& o.db.spec_dir() == apply_actions(
                                Map::<Seq<char>, Seq<u8>>::empty(),
                                o.actions@,
                            )
                            &&& o.db.spec_dir() == Map::<Seq<char>, Seq<u8>>::empty().insert(
                                checkpoint_name(0),
                                F::spec_data_bytes(T::init_spec()),
                            ).insert(log_name(0), Seq::<u8>::empty()).insert(
                                version_name(),
                                dec_bytes(0),
                            )
                        },
                        Some(d) => {
                            &&& spec_recover::<T, F>(d@) == Some(
                                (o.db.spec_version(), o.db.spec_data()),
                            )
                            &&& o.db.spec_dir() == apply_actions(d@, o.actions@)
                            &&& d@.contains_key(log_name(o.db.spec_version()))
                            &&& o.log_truncated == !F::log_complete(
                                d@[log_name(o.db.spec_version())],
                            )
                        },
                    })
                },
                Err(e) => (match existing {
                    None => e == StoreError::IoFailure && !F::data_ok(T::init_spec()),
                    Some(d) => spec_recover::<T, F>(d@) is None && e == spec_open_err::<T, F>(d@),
                }),
            }),
    {
        match existing {
            None => Self::create_fresh(path, fmt),
            Some(d) => Self::recover_existing(path, d, fmt),
        }
    }

    /// Creates a fresh store directory at version 0.
    fn create_fresh(path: &str, fmt: F) -> (r: Result<OpenOutcome<T, F>, StoreError>)
        ensures
            (match r {
                Ok(o) => {
                    &&& o.db.inv()
                    &&& o.db.spec_path() == path@
                    &&& o.db.spec_version() == 0
                    &&& o.db.spec_data() == T::init_spec()
                    &&& F::data_ok(T::init_spec())
                    &&& o.log_truncated == false
                    &&& o.db.spec_dir() == apply_actions(
                        Map::<Seq<char>, Seq<u8>>::empty(),
                        o.actions@,
                    )
                    &&& o.db.spec_dir() == Map::<Seq<char>, Seq<u8>>::empty().insert(
                        checkpoint_name(0),
                        F::spec_data_bytes(T::init_spec()),
                    ).insert(log_name(0), Seq::<u8>::empty()).insert(
                        version_name(),
                        dec_bytes(0),
                    )
                },
                Err(e) => e == StoreError::IoFailure && !F::data_ok(T::init_spec()),
            }),
    {
        let data = T::initial_state();
        let ser = match fmt.serialize_data(&data) {
            Ok(b) => b,
            Err(_) => {
                return Err(StoreError::IoFailure);
            },
        };
        let ghost d_in = Map::<Seq<char>, Seq<u8>>::empty();
        let mut dir = Dir::new();
        let mut acts: Vec<FsAction> = Vec::new();
        proof {
            assert(acts@ =~= Seq::<FsAction>::empty());
            assert(apply_actions(d_in, acts@) == d_in);
            lemma_store_names(0, 0);
            lemma_parse_dec_bytes_round_trip(0);
        }
        let act = FsAction::CreateDir;
        proof {
            lemma_apply_actions_snoc(d_in, acts@, act);
        }
        acts.push(act);
        // the initial checkpoint
        let cpn = make_checkpoint_name(0);
        dir.put(cpn.as_str(), ser.as_slice());
        let act = FsAction::WriteFile { name: cpn, contents: ser };
        proof {
            lemma_apply_actions_snoc(d_in, acts@, act);
        }
        acts.push(act);
        // the initial, empty log
        let ln = make_log_name(0);
        let lempty: Vec<u8> = Vec::new();
        dir.put(ln.as_str(), lempty.as_slice());
        let act = FsAction::WriteFile { name: ln, contents: lempty };
        proof {
            lemma_apply_actions_snoc(d_in, acts@, act);
        }
        acts.push(act);
        // the version pointer, committed by staging write plus rename
        let sn = make_staging_name();
        let vn = make_version_name();
        let vb = u64_to_dec_vec(0);
        dir.put(sn.as_str(), vb.as_slice());
        let act = FsAction::WriteFile { name: sn.clone(), contents: vb };
        proof {
            lemma_apply_actions_snoc(d_in, acts@, act);
        }
        acts.push(act);
        dir.rename(sn.as_str(), vn.as_str());
        let act = FsAction::Rename { from: sn, to: vn };
        proof {
            lemma_apply_actions_snoc(d_in, acts@, act);
        }
        acts.push(act);
        let db = Database { data, fmt, path: path.to_owned(), version: 0, dir };
        proof {
            assert(db.dir@ =~= Map::<Seq<char>, Seq<u8>>::empty().insert(
                checkpoint_name(0),
                F::spec_data_bytes(T::init_spec()),
            ).insert(log_name(0), Seq::<u8>::empty()).insert(version_name(), dec_bytes(0)));
            F::lemma_empty_log();
            assert(replay::<T>(
                T::init_spec(),
                Seq::<<<T as Updateable>::Args as View>::V>::empty(),
            ) == T::init_spec());
        }
        Ok(OpenOutcome { db, actions: acts, log_truncated: false })
    }

    /// Recovers the store from an existing directory.
    fn recover_existing(path: &str, d: Dir, fmt: F) -> (r: Result<OpenOutcome<T, F>, StoreError>)
        ensures
            (match r {
                Ok(o) => {
                    &&& o.db.inv()
                    &&& o.db.spec_path() == path@
                    &&& spec_recover::<T, F>(d@) == Some((o.db.spec_version(), o.db.spec_data()))
                    &&& o.db.spec_dir() == apply_actions(d@, o.actions@)
                    &&& d@.contains_key(log_name(o.db.spec_version()))
                    &&& o.log_truncated == !F::log_complete(d@[log_name(o.db.spec_version())])
                },
                Err(e) => spec_recover::<T, F>(d@) is None && e == spec_open_err::<T, F>(d@),
            }),
    {
        let ghost d_in = d@;
        let mut dir = d;
        let mut acts: Vec<FsAction> = Vec::new();
        proof {
            assert(acts@ =~= Seq::<FsAction>::empty());
            assert(apply_actions(d_in, acts@) == d_in);
            lemma_store_names(0, 0);
        }
        // a leftover staging file means a commit was interrupted after its
        // durable write: finish the rename now
        let sn = make_staging_name();
        let vn = make_version_name();
        let staged = dir.contains(sn.as_str());
        if staged {
            dir.rename(sn.as_str(), vn.as_str());
            let act = FsAction::Rename { from: sn, to: vn.clone() };
            proof {
                lemma_apply_actions_snoc(d_in, acts@, act);
            }
            acts.push(act);
        }
        proof {
            if staged {
                assert(dir@.contains_key(version_name()));
                assert(dir@[version_name()] == d_in[staging_name()]);
                assert(effective_version_bytes(d_in) == Some(d_in[staging_name()]));
            }
        }
        // the committed version
        let v = {
            let parsed = match dir.read_file(vn.as_str()) {
                Some(b) => parse_version_bytes(b.as_slice()),
                None => {
                    proof {
                        assert(effective_version_bytes(d_in) is None);
                    }
                    return Err(StoreError::CorruptVersion);
                },
            };
            match parsed {
                Some(v) => v,
                None => {
                    return Err(StoreError::CorruptVersion);
                },
            }
        };
        proof {
            assert(effective_version_bytes(d_in) == Some(dir@[version_name()]));
            assert(parse_dec_bytes(effective_version_bytes(d_in)->0) == Some(v));
            lemma_store_names(v, v);
        }
        // the checkpoint of that version
        let cpn = make_checkpoint_name(v);
        proof {
            assert(dir@.contains_key(checkpoint_name(v)) == d_in.contains_key(checkpoint_name(v)));
            if dir@.contains_key(checkpoint_name(v)) {
                assert(dir@[checkpoint_name(v)] == d_in[checkpoint_name(v)]);
            }
        }
        let parsed_data = match dir.read_file(cpn.as_str()) {
            Some(b) => fmt.deserialize_data(b.as_slice()),
            None => {
                return Err(StoreError::CorruptCheckpoint);
            },
        };
        let data0 = match parsed_data {
            Ok(x) => x,
            Err(e) => {
                return Err(e);
            },
        };
        // the log of that version, replayed in order up to the first
        // malformed record
        let ln = make_log_name(v);
        proof {
            assert(dir@.contains_key(log_name(v)) == d_in.contains_key(log_name(v)));
            if dir@.contains_key(log_name(v)) {
                assert(dir@[log_name(v)] == d_in[log_name(v)]);
            }
        }
        let parsed_log = match dir.read_file(ln.as_str()) {
            Some(b) => fmt.deserialize_params(b.as_slice()),
            None => {
                return Err(StoreError::IoFailure);
            },
        };
        let (records, complete) = parsed_log;
        let ghost lgb = d_in[log_name(v)];
        let mut data = data0;
        let ghost rviews = records@.map_values(|a: <T as Updateable>::Args| a@);
        proof {
            assert(rviews.take(0) =~= Seq::<<<T as Updateable>::Args as View>::V>::empty());
            assert(replay::<T>(
                data0@,
                Seq::<<<T as Updateable>::Args as View>::V>::empty(),
            ) == data0@);
        }
        let mut k: usize = 0;
        while k < records.len()
            invariant
                0 <= k <= records@.len(),
                rviews.len() == records@.len(),
                forall|i: int| 0 <= i < rviews.len() ==> rviews[i] == #[trigger] records@[i]@,
                data@ == replay::<T>(data0@, rviews.take(k as int)),
            decreases records@.len() - k,
        {
            let _ = data.update(&records[k]);
            proof {
                assert(rviews.take(k + 1) =~= rviews.take(k as int).push(rviews[k as int]));
                lemma_replay_snoc::<T>(data0@, rviews.take(k as int), rviews[k as int]);
            }
            k = k + 1;
        }
        proof {
            assert(rviews.take(records@.len() as int) =~= rviews);
        }
        // a torn tail is repaired: the log is rewritten to the well-formed
        // records that were replayed
        let truncated = !complete;
        if truncated {
            let mut newlog: Vec<u8> = Vec::new();
            proof {
                F::lemma_empty_log();
                assert(newlog@ =~= Seq::<u8>::empty());
                assert(F::spec_parse_records(newlog@) =~= rviews.take(0));
            }
            let mut k2: usize = 0;
            while k2 < records.len()
                invariant
                    0 <= k2 <= records@.len(),
                    rviews.len() == records@.len(),
                    forall|i: int| 0 <= i < rviews.len() ==> rviews[i] == #[trigger] records@[i]@,
                    forall|i: int| 0 <= i < records@.len() ==> F::record_ok(#[trigger] records@[i]@),
                    F::log_complete(newlog@),
                    F::spec_parse_records(newlog@) =~= rviews.take(k2 as int),
                decreases records@.len() - k2,
            {
                let ghost nl0 = newlog@;
                let mut b = match fmt.serialize_params(&records[k2]) {
                    Ok(b) => b,
                    Err(_) => {
                        proof {
                            assert(F::record_ok(records@[k2 as int]@));
                            assert(false);
                        }
                        return Err(StoreError::IoFailure);
                    },
                };
                let ghost bb = b@;
                newlog.append(&mut b);
                proof {
                    assert(newlog@ == nl0 + bb);
                    assert(F::spec_parse_records(nl0 + bb) =~= F::spec_parse_records(nl0).push(
                        records@[k2 as int]@,
                    ));
                    assert(rviews.take(k2 + 1) =~= rviews.take(k2 as int).push(rviews[k2 as int]));
                }
                k2 = k2 + 1;
            }
            proof {
                assert(F::spec_parse_records(newlog@) =~= rviews);
            }
            dir.put(ln.as_str(), newlog.as_slice());
            let act = FsAction::WriteFile { name: ln, contents: newlog };
            proof {
                lemma_apply_actions_snoc(d_in, acts@, act);
            }
            acts.push(act);
        }
        let db = Database { data, fmt, path: path.to_owned(), version: v, dir };
        proof {
            assert(db.dir@.contains_key(version_name()));
            assert(parse_dec_bytes(db.dir@[version_name()]) == Some(v));
            assert(!db.dir@.contains_key(staging_name()));
            assert(db.dir@.contains_key(checkpoint_name(v)));
            assert(F::spec_parse_data(db.dir@[checkpoint_name(v)]) == Some(data0@));
            assert(db.dir@.contains_key(log_name(v)));
            if truncated {
                assert(F::log_complete(db.dir@[log_name(v)]));
                assert(F::spec_parse_records(db.dir@[log_name(v)]) =~= rviews);
            } else {
                assert(db.dir@[log_name(v)] == lgb);
                assert(F::log_complete(lgb));
                assert(F::spec_parse_records(lgb) =~= rviews);
            }
            assert(F::spec_parse_records(lgb) =~= rviews);
            assert(db.data@ == replay::<T>(data0@, rviews));
        }
        Ok(OpenOutcome { db, actions: acts, log_truncated: truncated })
    }

    /// Destroys the store: the caller must replay the returned action, which
    /// recursively removes the directory.  Consuming the handle makes this
    /// terminal and irreversible.
    pub fn delete(self) -> (acts: Vec<FsAction>)
        ensures
            acts@ =~= seq![FsAction::RemoveDir],
    {
        let mut acts: Vec<FsAction> = Vec::new();
        acts.push(FsAction::RemoveDir);
        proof {
            assert(acts@ =~= seq![FsAction::RemoveDir]);
        }
        acts
    }
}

impl<T, F> Database<T, F> where T: Readable + Updateable + Clone, F: DataFormat<Data = T> {
    /// The value of the data after the call, for the clone relation below.
    pub closed spec fn data_value(&self) -> T {
        self.data
    }

    /// A copy of the full current state.
    pub fn clone_data(&self) -> (r: T)
        ensures
            vstd::pervasive::cloned::<T>(self.data_value(), r),
            self.data_value()@ == self.spec_data(),
    {
        self.data.clone()
    }
}

/// The state a store recovers to is exactly the state it holds: the round
/// trip at the core of the crash-safety story.  Together with the contract
/// of [`Database::open`], any directory a database with intact invariant
/// leaves behind recovers to that database's version and state.
pub proof fn lemma_recover_matches_state<T, F>(db: &Database<T, F>) where
    T: Readable + Updateable,
    F: DataFormat<Data = T>,

    requires
        db.inv(),
    ensures
        spec_recover::<T, F>(db.spec_dir()) == Some((db.spec_version(), db.spec_data())),
{
}

} // verus!
