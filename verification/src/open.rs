//! Opening a vault.
//!
//! A new vault gets its current key. An existing one is tried with the current key, then with
//! the older ones; where an older key opens it, it is given a current one. [`OpenJob`] decides
//! which key comes next; whoever runs it talks to the database and to the disk.
use crate::error::{EngramError, ErrorView};
use crate::keys::{
    derive_legacy_key, derive_passphrase_key, derive_passphrase_key_sha256, derive_vault_key,
    legacy_key_of, opt_bytes, passphrase_key_of, passphrase_key_sha256_of, vault_key_of,
};
use crate::schema::{create_tables, table_statements};
use crate::sql::{plain, plain_of, statement_views, Statement, StatementView};
use crate::text::{byte_len, concat, concat3, opt_text};
use vstd::prelude::*;

verus! {

/// Where the opening of a vault stands.
#[derive(Debug, Clone, Copy, PartialEq, Eq, Structural)]
pub enum OpenStage {
    /// Nothing was decided.
    Begin,
    /// A new vault gets a salt.
    NewSalt,
    /// The salt of an existing vault is read.
    ReadSalt,
    /// The key from the passphrase is tried.
    Passphrase,
    /// The older key from the passphrase is tried.
    OldPassphrase,
    /// A vault with the older key from the passphrase gets a salt.
    MigrationSalt,
    /// A vault gets the key from the passphrase.
    MigratePassphrase,
    /// The key of the machine is tried.
    Machine,
    /// The older key of the machine is tried.
    OldMachine,
    /// A vault gets the key of the machine.
    MigrateMachine,
    /// All was decided.
    Done,
}

/// What to do next to open a vault.
#[derive(Debug)]
pub enum OpenAction {
    /// Store a salt unless there is one; then read it, and report what was read.
    MakeSalt,
    /// Read the salt, if there is one, and report what was read.
    ReadSalt,
    /// Make the vault with the key. It is then open.
    Create(String),
    /// Open the vault with the key, and report whether that works.
    Try(String),
    /// Give the open vault the key, and report whether that works.
    Rekey(String),
    /// The vault is open.
    Finish,
    /// The vault cannot be opened.
    Fail(EngramError),
}

/// What to do next to open a vault, as seen in contracts.
#[verifier::ext_equal]
pub enum OpenActionView {
    MakeSalt,
    ReadSalt,
    Create(Seq<char>),
    Try(Seq<char>),
    Rekey(Seq<char>),
    Finish,
    Fail(ErrorView),
}

impl View for OpenAction {
    type V = OpenActionView;

    open spec fn view(&self) -> OpenActionView {
        match self {
            OpenAction::MakeSalt => OpenActionView::MakeSalt,
            OpenAction::ReadSalt => OpenActionView::ReadSalt,
            OpenAction::Create(k) => OpenActionView::Create(k@),
            OpenAction::Try(k) => OpenActionView::Try(k@),
            OpenAction::Rekey(k) => OpenActionView::Rekey(k@),
            OpenAction::Finish => OpenActionView::Finish,
            OpenAction::Fail(e) => OpenActionView::Fail(e@),
        }
    }
}

/// What happened since the last action.
#[derive(Debug)]
pub enum OpenEvent {
    /// The opening starts; whether there is a vault.
    Start(bool),
    /// The salt that was read, if any.
    Salt(Option<Vec<u8>>),
    /// Whether the key opened the vault.
    Tried(bool),
    /// The vault has the new key.
    Rekeyed,
    /// The vault could not be given the new key, for the reason given.
    RekeyFailed(String),
}

/// What happened since the last action, as seen in contracts.
#[verifier::ext_equal]
pub enum OpenEventView {
    Start(bool),
    Salt(Option<Seq<u8>>),
    Tried(bool),
    Rekeyed,
    RekeyFailed(Seq<char>),
}

impl View for OpenEvent {
    type V = OpenEventView;

    open spec fn view(&self) -> OpenEventView {
        match self {
            OpenEvent::Start(b) => OpenEventView::Start(*b),
            OpenEvent::Salt(d) => OpenEventView::Salt(opt_bytes(*d)),
            OpenEvent::Tried(b) => OpenEventView::Tried(*b),
            OpenEvent::Rekeyed => OpenEventView::Rekeyed,
            OpenEvent::RekeyFailed(why) => OpenEventView::RekeyFailed(why@),
        }
    }
}

/// The opening of a vault.
#[derive(Debug)]
pub struct OpenJob {
    pub passphrase: Option<String>,
    pub machine_id: String,
    pub stage: OpenStage,
}

/// The opening of a vault, as seen in contracts.
#[verifier::ext_equal]
pub struct OpenJobView {
    pub passphrase: Option<Seq<char>>,
    pub machine_id: Seq<char>,
    pub stage: OpenStage,
}

impl View for OpenJob {
    type V = OpenJobView;

    open spec fn view(&self) -> OpenJobView {
        OpenJobView {
            passphrase: opt_text(self.passphrase),
            machine_id: self.machine_id@,
            stage: self.stage,
        }
    }
}

/// That the passphrase is wrong, or the vault broken.
pub const WRONG_PASSPHRASE: &'static str = "vault key mismatch: wrong passphrase or corrupt vault.";

/// That the vault does not belong to the machine.
pub const WRONG_MACHINE: &'static str = "vault key mismatch: neither machine-id key nor legacy key can open this vault. If you used a passphrase, call open_with_passphrase().";

/// That a vault with an older passphrase key could not be given a current one.
pub const PASSPHRASE_REKEY_FAILED: &'static str = "rekey migration to Argon2id failed: ";

/// That a vault with an older machine key could not be given a current one.
pub const MACHINE_REKEY_FAILED: &'static str = "rekey migration from legacy SipHash failed: ";

impl OpenJobView {
    /// Whether the stage goes with the passphrase, and the passphrase is one that a key can be
    /// derived from.
    pub open spec fn wf(self) -> bool {
        match self.passphrase {
            Some(p) => byte_len(p) <= 0xffff_ffff,
            None => self.stage is Begin || self.stage is Machine || self.stage is OldMachine
                || self.stage is MigrateMachine || self.stage is Done,
        }
    }

    /// Whether an event is an answer to what the opening waits for.
    pub open spec fn awaits(self, event: OpenEventView) -> bool {
        match self.stage {
            OpenStage::Begin => event is Start,
            OpenStage::NewSalt | OpenStage::ReadSalt | OpenStage::MigrationSalt => event is Salt,
            OpenStage::Passphrase
            | OpenStage::OldPassphrase
            | OpenStage::Machine
            | OpenStage::OldMachine => event is Tried,
            OpenStage::MigratePassphrase | OpenStage::MigrateMachine => {
                event is Rekeyed || event is RekeyFailed
            },
            OpenStage::Done => false,
        }
    }

    /// The next stage and the next action.
    pub open spec fn step(self, event: OpenEventView) -> (OpenStage, OpenActionView) {
        let machine_key = vault_key_of(self.machine_id);
        match (self.stage, event) {
            (OpenStage::Begin, OpenEventView::Start(exists)) => {
                match (exists, self.passphrase) {
                    (false, None) => (OpenStage::Done, OpenActionView::Create(machine_key)),
                    (false, Some(_)) => (OpenStage::NewSalt, OpenActionView::MakeSalt),
                    (true, None) => (OpenStage::Machine, OpenActionView::Try(machine_key)),
                    (true, Some(_)) => (OpenStage::ReadSalt, OpenActionView::ReadSalt),
                }
            },
            (OpenStage::NewSalt, OpenEventView::Salt(data)) => (
                OpenStage::Done,
                OpenActionView::Create(passphrase_key_of(self.passphrase->0, data)),
            ),
            (OpenStage::ReadSalt, OpenEventView::Salt(data)) => (
                OpenStage::Passphrase,
                OpenActionView::Try(passphrase_key_of(self.passphrase->0, data)),
            ),
            (OpenStage::Passphrase, OpenEventView::Tried(worked)) => if worked {
                (OpenStage::Done, OpenActionView::Finish)
            } else {
                (
                    OpenStage::OldPassphrase,
                    OpenActionView::Try(passphrase_key_sha256_of(self.passphrase->0)),
                )
            },
            (OpenStage::OldPassphrase, OpenEventView::Tried(worked)) => if worked {
                (OpenStage::MigrationSalt, OpenActionView::MakeSalt)
            } else {
                (OpenStage::Machine, OpenActionView::Try(machine_key))
            },
            (OpenStage::MigrationSalt, OpenEventView::Salt(data)) => (
                OpenStage::MigratePassphrase,
                OpenActionView::Rekey(passphrase_key_of(self.passphrase->0, data)),
            ),
            (OpenStage::Machine, OpenEventView::Tried(worked)) => if worked {
                (OpenStage::Done, OpenActionView::Finish)
            } else {
                (OpenStage::OldMachine, OpenActionView::Try(legacy_key_of(self.machine_id)))
            },
            (OpenStage::OldMachine, OpenEventView::Tried(worked)) => if worked {
                (OpenStage::MigrateMachine, OpenActionView::Rekey(machine_key))
            } else {
                (
                    OpenStage::Done,
                    OpenActionView::Fail(
                        ErrorView::Validation(
                            if self.passphrase is Some {
                                WRONG_PASSPHRASE@
                            } else {
                                WRONG_MACHINE@
                            },
                        ),
                    ),
                )
            },
            (
                OpenStage::MigratePassphrase | OpenStage::MigrateMachine,
                OpenEventView::Rekeyed,
            ) => (OpenStage::Done, OpenActionView::Finish),
            (OpenStage::MigratePassphrase, OpenEventView::RekeyFailed(why)) => (
                OpenStage::Done,
                OpenActionView::Fail(ErrorView::Validation(PASSPHRASE_REKEY_FAILED@ + why)),
            ),
            (OpenStage::MigrateMachine, OpenEventView::RekeyFailed(why)) => (
                OpenStage::Done,
                OpenActionView::Fail(ErrorView::Validation(MACHINE_REKEY_FAILED@ + why)),
            ),
            _ => arbitrary(),
        }
    }
}

impl OpenJob {
    /// The opening of a vault by the machine.
    pub fn open(machine_id: String) -> (r: OpenJob)
        ensures
            r@ == (OpenJobView {
                passphrase: None,
                machine_id: machine_id@,
                stage: OpenStage::Begin,
            }),
            r@.wf(),
    {
        OpenJob { passphrase: None, machine_id, stage: OpenStage::Begin }
    }

    /// The opening of a vault by a passphrase.
    pub fn open_with_passphrase(passphrase: String, machine_id: String) -> (r: OpenJob)
        ensures
            r@ == (OpenJobView {
                passphrase: Some(passphrase@),
                machine_id: machine_id@,
                stage: OpenStage::Begin,
            }),
            byte_len(passphrase@) <= 0xffff_ffff ==> r@.wf(),
    {
        OpenJob { passphrase: Some(passphrase), machine_id, stage: OpenStage::Begin }
    }

    fn passphrase_key(&self, salt: &Option<Vec<u8>>) -> (r: String)
        requires
            self@.passphrase is Some,
            self@.wf(),
        ensures
            r@ == passphrase_key_of(self@.passphrase->0, opt_bytes(*salt)),
    {
        match &self.passphrase {
            Some(p) => derive_passphrase_key(p.as_str(), salt),
            None => String::new(),
        }
    }

    fn old_passphrase_key(&self) -> (r: String)
        requires
            self@.passphrase is Some,
        ensures
            r@ == passphrase_key_sha256_of(self@.passphrase->0),
    {
        match &self.passphrase {
            Some(p) => derive_passphrase_key_sha256(p.as_str()),
            None => String::new(),
        }
    }

    /// Decides what to do next.
    pub fn advance(&mut self, event: OpenEvent) -> (r: OpenAction)
        requires
            old(self)@.wf(),
            old(self)@.awaits(event@),
        ensures
            r@ == old(self)@.step(event@).1,
            final(self)@ == (OpenJobView { stage: old(self)@.step(event@).0, ..old(self)@ }),
            final(self)@.wf(),
    {
        match (self.stage, event) {
            (OpenStage::Begin, OpenEvent::Start(exists)) => {
                if self.passphrase.is_some() {
                    if exists {
                        self.stage = OpenStage::ReadSalt;
                        OpenAction::ReadSalt
                    } else {
                        self.stage = OpenStage::NewSalt;
                        OpenAction::MakeSalt
                    }
                } else {
                    let key = derive_vault_key(self.machine_id.as_str());
                    if exists {
                        self.stage = OpenStage::Machine;
                        OpenAction::Try(key)
                    } else {
                        self.stage = OpenStage::Done;
                        OpenAction::Create(key)
                    }
                }
            },
            (OpenStage::NewSalt, OpenEvent::Salt(data)) => {
                let key = self.passphrase_key(&data);
                self.stage = OpenStage::Done;
                OpenAction::Create(key)
            },
            (OpenStage::ReadSalt, OpenEvent::Salt(data)) => {
                let key = self.passphrase_key(&data);
                self.stage = OpenStage::Passphrase;
                OpenAction::Try(key)
            },
            (OpenStage::Passphrase, OpenEvent::Tried(worked)) => {
                if worked {
                    self.stage = OpenStage::Done;
                    OpenAction::Finish
                } else {
                    let key = self.old_passphrase_key();
                    self.stage = OpenStage::OldPassphrase;
                    OpenAction::Try(key)
                }
            },
            (OpenStage::OldPassphrase, OpenEvent::Tried(worked)) => {
                if worked {
                    self.stage = OpenStage::MigrationSalt;
                    OpenAction::MakeSalt
                } else {
                    self.stage = OpenStage::Machine;
                    OpenAction::Try(derive_vault_key(self.machine_id.as_str()))
                }
            },
            (OpenStage::MigrationSalt, OpenEvent::Salt(data)) => {
                let key = self.passphrase_key(&data);
                self.stage = OpenStage::MigratePassphrase;
                OpenAction::Rekey(key)
            },
            (OpenStage::Machine, OpenEvent::Tried(worked)) => {
                if worked {
                    self.stage = OpenStage::Done;
                    OpenAction::Finish
                } else {
                    self.stage = OpenStage::OldMachine;
                    OpenAction::Try(derive_legacy_key(self.machine_id.as_str()))
                }
            },
            (OpenStage::OldMachine, OpenEvent::Tried(worked)) => {
                if worked {
                    self.stage = OpenStage::MigrateMachine;
                    OpenAction::Rekey(derive_vault_key(self.machine_id.as_str()))
                } else {
                    self.stage = OpenStage::Done;
                    if self.passphrase.is_some() {
                        OpenAction::Fail(EngramError::Validation(WRONG_PASSPHRASE.to_string()))
                    } else {
                        OpenAction::Fail(EngramError::Validation(WRONG_MACHINE.to_string()))
                    }
                }
            },
            (OpenStage::MigratePassphrase, OpenEvent::RekeyFailed(why)) => {
                self.stage = OpenStage::Done;
                OpenAction::Fail(
                    EngramError::Validation(concat(PASSPHRASE_REKEY_FAILED, why.as_str())),
                )
            },
            (OpenStage::MigrateMachine, OpenEvent::RekeyFailed(why)) => {
                self.stage = OpenStage::Done;
                OpenAction::Fail(
                    EngramError::Validation(concat(MACHINE_REKEY_FAILED, why.as_str())),
                )
            },
            _ => {
                self.stage = OpenStage::Done;
                OpenAction::Finish
            },
        }
    }
}

/// Lets a connection wait for others.
pub const BUSY_TIMEOUT: &'static str = "PRAGMA busy_timeout=5000;";

/// Lets foreign keys act.
pub const FOREIGN_KEYS_ON: &'static str = "PRAGMA foreign_keys=ON;";

/// Lets several connections read and write at once.
pub const WRITE_AHEAD: &'static str = "PRAGMA journal_mode=WAL;";

/// Reads something, which works only with the right key.
pub const PROBE: &'static str = "SELECT count(*) FROM sqlite_master";

/// What runs first on a vault that is open.
pub open spec fn finish_statements() -> Seq<StatementView> {
    seq![plain_of(WRITE_AHEAD@), plain_of(FOREIGN_KEYS_ON@)] + table_statements()
}

/// What runs first on a vault that is open: settings, and the tables that are missing. The
/// migrations come next.
pub fn finish_open() -> (r: Vec<Statement>)
    ensures
        statement_views(r@) == finish_statements(),
{
    let mut v: Vec<Statement> = Vec::new();
    v.push(plain(WRITE_AHEAD));
    v.push(plain(FOREIGN_KEYS_ON));
    let ghost first = v@;
    let mut tables = create_tables();
    let ghost rest = tables@;
    v.append(&mut tables);
    proof {
        assert(statement_views(first + rest) =~= statement_views(first) + statement_views(rest));
        assert(statement_views(first) =~= seq![plain_of(WRITE_AHEAD@), plain_of(FOREIGN_KEYS_ON@)]);
    }
    v
}

/// The statement that a connection gives its key with.
pub open spec fn key_pragma_of(key: Seq<char>) -> Seq<char> {
    "PRAGMA key = '"@ + key + "';"@
}

/// The statement that a connection gives its key with.
pub fn key_pragma(key: &str) -> (r: String)
    ensures
        r@ == key_pragma_of(key@),
{
    concat3("PRAGMA key = '", key, "';")
}

/// The statement that gives a vault a new key.
pub open spec fn rekey_pragma_of(key: Seq<char>) -> Seq<char> {
    "PRAGMA rekey = '"@ + key + "';"@
}

/// The statement that gives a vault a new key.
pub fn rekey_pragma(key: &str) -> (r: String)
    ensures
        r@ == rekey_pragma_of(key@),
{
    concat3("PRAGMA rekey = '", key, "';")
}

/// What the opening of a vault finds, and leaves: whether there is a vault, its key, its salt, and
/// the salt that one without a salt gets, if storing it works.
#[verifier::ext_equal]
pub struct Disk {
    pub exists: bool,
    pub key: Seq<char>,
    pub salt: Option<Seq<u8>>,
    pub fresh_salt: Option<Seq<u8>>,
}

impl Disk {
    /// What an action does.
    pub open spec fn after(self, action: OpenActionView) -> Disk {
        match action {
            OpenActionView::MakeSalt => Disk {
                salt: if self.salt is Some {
                    self.salt
                } else {
                    self.fresh_salt
                },
                ..self
            },
            OpenActionView::Create(key) => Disk { exists: true, key, ..self },
            OpenActionView::Rekey(key) => Disk { key, ..self },
            _ => self,
        }
    }

    /// What an action is answered with, once it was done.
    pub open spec fn answer(self, action: OpenActionView) -> OpenEventView {
        match action {
            OpenActionView::MakeSalt | OpenActionView::ReadSalt => OpenEventView::Salt(self.salt),
            OpenActionView::Try(key) => OpenEventView::Tried(self.exists && self.key == key),
            _ => OpenEventView::Rekeyed,
        }
    }
}

/// How many steps the opening of a vault can still take.
pub open spec fn steps_left(stage: OpenStage) -> nat {
    match stage {
        OpenStage::Begin => 9,
        OpenStage::NewSalt | OpenStage::ReadSalt => 8,
        OpenStage::Passphrase => 7,
        OpenStage::OldPassphrase => 6,
        OpenStage::MigrationSalt => 5,
        OpenStage::MigratePassphrase => 4,
        OpenStage::Machine => 3,
        OpenStage::OldMachine => 2,
        OpenStage::MigrateMachine => 1,
        OpenStage::Done => 0,
    }
}

/// The opening of a vault from an event on, on a disk where all that can be tried is answered
/// truly: the last action, and the disk it leaves.
pub open spec fn run(job: OpenJobView, event: OpenEventView, disk: Disk) -> (OpenActionView, Disk)
    decreases steps_left(job.stage),
{
    let (stage, action) = job.step(event);
    let left = disk.after(action);
    if !job.awaits(event) || stage is Done || steps_left(stage) >= steps_left(job.stage) {
        (action, left)
    } else {
        run(OpenJobView { stage, ..job }, left.answer(action), left)
    }
}

/// The opening of a vault from its start on.
pub open spec fn opened(job: OpenJobView, disk: Disk) -> (OpenActionView, Disk) {
    run(job, OpenEventView::Start(disk.exists), disk)
}

/// The opening of a vault comes to its end.
pub proof fn law_every_opening_ends(job: OpenJobView, event: OpenEventView)
    requires
        job.wf(),
        job.awaits(event),
    ensures
        steps_left(job.step(event).0) < steps_left(job.stage),
        job.step(event).0 is Done <==> (job.step(event).1 is Create || job.step(event).1 is Finish
            || job.step(event).1 is Fail),
{
}

/// A vault opens exactly if it has one of the keys that its passphrase and its machine give.
pub proof fn law_vault_opens_with_its_keys(job: OpenJobView, disk: Disk)
    requires
        job.wf(),
        job.stage is Begin,
        disk.exists,
    ensures
        opened(job, disk).0 is Finish <==> {
            ||| disk.key == vault_key_of(job.machine_id)
            ||| disk.key == legacy_key_of(job.machine_id)
            ||| job.passphrase matches Some(p) && disk.key == passphrase_key_of(p, disk.salt)
            ||| job.passphrase matches Some(p) && disk.key == passphrase_key_sha256_of(p)
        },
        opened(job, disk).0 is Finish || opened(job, disk).0 is Fail,
{
    reveal_with_fuel(run, 9);
}

/// A vault with the machine's key that is opened with a passphrase keeps its key: the passphrase
/// may serve other ends. The exception would be a passphrase whose older key is the machine's,
/// that is, one equal to the machine's identifier.
pub proof fn law_machine_keyed_vault_keeps_its_key(job: OpenJobView, disk: Disk)
    requires
        job.wf(),
        job.stage is Begin,
        disk.exists,
        disk.key == vault_key_of(job.machine_id),
        job.passphrase matches Some(p) ==> passphrase_key_sha256_of(p) != vault_key_of(
            job.machine_id,
        ),
    ensures
        opened(job, disk).0 is Finish,
        opened(job, disk).1.key == disk.key,
{
    reveal_with_fuel(run, 9);
}

/// A vault that fails to open is left as it was.
pub proof fn law_failed_opening_changes_nothing(job: OpenJobView, disk: Disk)
    requires
        job.wf(),
        job.stage is Begin,
        disk.exists,
        opened(job, disk).0 is Fail,
    ensures
        opened(job, disk).1 == disk,
{
    reveal_with_fuel(run, 9);
}

/// A vault that was opened, whatever its key was, or made, opens again with the same passphrase on
/// the same machine, and then keeps its key.
pub proof fn law_opened_vault_opens_again(job: OpenJobView, disk: Disk, fresh: Option<Seq<u8>>)
    requires
        job.wf(),
        job.stage is Begin,
        opened(job, disk).0 !is Fail,
        job.passphrase matches Some(p) ==> passphrase_key_sha256_of(p) != vault_key_of(
            job.machine_id,
        ),
    ensures
        ({
            let left = Disk { fresh_salt: fresh, ..opened(job, disk).1 };
            &&& left.exists
            &&& opened(job, left).0 is Finish
            &&& opened(job, left).1.key == left.key
        }),
{
    reveal_with_fuel(run, 9);
}

/// A new vault is made with the key of its passphrase, and with that of its machine only where
/// there is none.
pub proof fn law_new_vault_gets_its_current_key(job: OpenJobView, disk: Disk)
    requires
        job.wf(),
        job.stage is Begin,
        !disk.exists,
    ensures
        ({
            let (action, left) = opened(job, disk);
            &&& left.exists
            &&& job.passphrase is None ==> action == OpenActionView::Create(
                vault_key_of(job.machine_id),
            ) && left.key == vault_key_of(job.machine_id)
            &&& job.passphrase matches Some(p) ==> action == OpenActionView::Create(
                passphrase_key_of(p, left.salt),
            ) && left.key == passphrase_key_of(p, left.salt)
            &&& job.passphrase is Some ==> left.salt == if disk.salt is Some {
                disk.salt
            } else {
                disk.fresh_salt
            }
        }),
{
    reveal_with_fuel(run, 3);
}

/// A vault that an old key opens is given the current one: that of the passphrase where the key
/// was made of it, else that of the machine.
pub proof fn law_old_keys_are_replaced(job: OpenJobView, disk: Disk)
    requires
        job.wf(),
        job.stage is Begin,
        disk.exists,
        disk.key != vault_key_of(job.machine_id),
        job.passphrase matches Some(p) ==> disk.key != passphrase_key_of(p, disk.salt),
    ensures
        ({
            let (action, left) = opened(job, disk);
            let p = job.passphrase->0;
            let of_passphrase = job.passphrase is Some && disk.key == passphrase_key_sha256_of(p);
            &&& of_passphrase ==> action is Finish && left.key == passphrase_key_of(p, left.salt)
            &&& !of_passphrase && disk.key == legacy_key_of(job.machine_id) ==> action is Finish
                && left.key == vault_key_of(job.machine_id)
        }),
{
    reveal_with_fuel(run, 9);
}

/// A vault that its current key opens keeps it.
pub proof fn law_current_key_stays(job: OpenJobView, disk: Disk)
    requires
        job.wf(),
        job.stage is Begin,
        disk.exists,
        disk.key == match job.passphrase {
            Some(p) => passphrase_key_of(p, disk.salt),
            None => vault_key_of(job.machine_id),
        },
    ensures
        opened(job, disk).0 is Finish,
        opened(job, disk).1 == disk,
{
    reveal_with_fuel(run, 9);
}

/// Where no key opens a vault, that is said, and what may help: with a passphrase that it is wrong
/// or the vault corrupt, without one that there may have been one.
pub proof fn law_failures_say_what_may_help(job: OpenJobView, disk: Disk)
    requires
        job.wf(),
        job.stage is Begin,
        disk.exists,
        opened(job, disk).0 is Fail,
    ensures
        opened(job, disk).0 == OpenActionView::Fail(
            ErrorView::Validation(
                if job.passphrase is Some {
                    "vault key mismatch: wrong passphrase or corrupt vault."@
                } else {
                    "vault key mismatch: neither machine-id key nor legacy key can open this vault. If you used a passphrase, call open_with_passphrase()."@
                },
            ),
        ),
{
    reveal_with_fuel(run, 9);
}

/// A vault that could not be given its current key is not opened, and why is passed on.
pub proof fn law_failed_rekeying_is_told(job: OpenJobView, why: Seq<char>)
    ensures
        job.stage is MigratePassphrase ==> job.step(OpenEventView::RekeyFailed(why)) == (
            OpenStage::Done,
            OpenActionView::Fail(
                ErrorView::Validation("rekey migration to Argon2id failed: "@ + why),
            ),
        ),
        job.stage is MigrateMachine ==> job.step(OpenEventView::RekeyFailed(why)) == (
            OpenStage::Done,
            OpenActionView::Fail(
                ErrorView::Validation("rekey migration from legacy SipHash failed: "@ + why),
            ),
        ),
{
}

/// A vault is used with write-ahead logging and with foreign keys, which deletions rely on, and a
/// key is handed over as it is.
pub proof fn law_vault_is_used_with(key: Seq<char>)
    ensures
        finish_statements().len() == 2 + table_statements().len(),
        finish_statements()[0] == plain_of("PRAGMA journal_mode=WAL;"@),
        finish_statements()[1] == plain_of("PRAGMA foreign_keys=ON;"@),
        forall|i: int|
            0 <= i < table_statements().len() ==> #[trigger] finish_statements()[i + 2]
                == table_statements()[i],
        BUSY_TIMEOUT@ == "PRAGMA busy_timeout=5000;"@,
        PROBE@ == "SELECT count(*) FROM sqlite_master"@,
        key_pragma_of(key) == "PRAGMA key = '"@ + key + "';"@,
        rekey_pragma_of(key) == "PRAGMA rekey = '"@ + key + "';"@,
{
}

} // verus!
