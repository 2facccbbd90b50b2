//! The registration workflow: from a token id to one write against the
//! token store.
//!
//! The store is a service outside this library. The workflow is therefore
//! cut into the decisions between the calls to the store: [`begin`] checks
//! the id and names the record to look up, [`Registration::decide`] takes
//! the answer and names the one write to make, and [`conclude`] turns the
//! outcome of that write into the result. Whoever drives the workflow
//! makes the calls.
//!
//! The lookup and the write are two calls. Where another writer creates
//! the name between them, the store refuses the insert and the refusal is
//! the result: nothing is tried again.

use vstd::prelude::*;
use crate::alphabet::{standard_symbols, Alphabet};
use crate::codec::{decode, decode_spec};
use crate::error::RegistrationError;
use crate::flags::known_bits;
use crate::range::{id_in_range, in_range};
use crate::rules::{
    first_broken, first_broken_rule, verdict_of, violation, violation_of, RuleViolation, validate,
};
use crate::text::symbols_of;

verus! {

/// A record of the token store: a name and the stored form of its
/// attributes.
pub struct Token {
    pub token: String,
    pub flags: i32,
}

/// What is wrong with a record.
#[derive(Clone, Copy, Debug, PartialEq, Eq, Structural)]
pub struct TokenFaults {
    /// The violation that the rule chain reports for the name, if any.
    pub name: Option<RuleViolation>,
    /// Whether the flags set a bit that stands for no attribute.
    pub unknown_flags: bool,
}

impl Token {
    /// Checks the record: its name against the rule chain over the
    /// base-38 alphabet, its flags against the known bits. Both are
    /// checked, whatever the first one gives.
    pub fn validate(&self) -> (verdict: Result<(), TokenFaults>)
        ensures
            verdict == self.faults(),
    {
        let name = match validate(&Alphabet::standard(), self.token.as_str()) {
            Ok(()) => None,
            Err(v) => Some(v),
        };
        let unknown_flags = self.flags < 0 || self.flags > 3;
        if name.is_none() && !unknown_flags {
            Ok(())
        } else {
            Err(TokenFaults { name, unknown_flags })
        }
    }

    /// What [`Token::validate`] finds.
    pub open spec fn faults(&self) -> Result<(), TokenFaults> {
        let name = match verdict_of(standard_symbols(), self.token@) {
            Ok(()) => None,
            Err(v) => Some(v),
        };
        let unknown_flags = !known_bits(self.flags as int);
        if name is None && !unknown_flags {
            Ok(())
        } else {
            Err(TokenFaults { name, unknown_flags })
        }
    }
}

/// A write against the token store.
pub enum StoreWrite {
    /// Create the record.
    Insert { name: String, flags: i32 },
    /// Set the flags of the record that exists under the name.
    UpdateFlags { name: String, flags: i32 },
}

/// A write by what it holds.
pub enum Write {
    Insert { name: Seq<char>, flags: i32 },
    UpdateFlags { name: Seq<char>, flags: i32 },
}

impl View for StoreWrite {
    type V = Write;

    open spec fn view(&self) -> Write {
        match self {
            StoreWrite::Insert { name, flags } => Write::Insert { name: name@, flags: *flags },
            StoreWrite::UpdateFlags { name, flags } => Write::UpdateFlags {
                name: name@,
                flags: *flags,
            },
        }
    }
}

/// A registration whose id and name have passed every check and that
/// waits for the store to say whether the name exists.
pub struct Registration {
    name: String,
    flags: i32,
}

/// The local part of the workflow: the name to register for `id`, or the
/// error of the first check that fails. The id is held against the range
/// first; then it is decoded and its name goes through the rule chain.
pub open spec fn plan(symbols: Seq<char>, id: int) -> Result<Seq<char>, RegistrationError> {
    if !id_in_range(symbols, id) {
        Err(RegistrationError::IdOutOfRange)
    } else {
        let name = decode_spec(symbols, id);
        match first_broken(symbols, name) {
            Some(rule) => Err(
                RegistrationError::InvalidName { rule, violation: violation_of(rule, name) },
            ),
            None => Ok(name),
        }
    }
}

/// The write that registers `name` with `flags`: an update where the
/// store has the name, an insert where it has not.
pub open spec fn write_for(name: Seq<char>, flags: i32, exists: bool) -> Write {
    if exists {
        Write::UpdateFlags { name, flags }
    } else {
        Write::Insert { name, flags }
    }
}

impl Registration {
    /// The name to look up and to write.
    pub closed spec fn name_of(&self) -> Seq<char> {
        self.name@
    }

    /// The flags to write.
    pub closed spec fn flags_of(&self) -> i32 {
        self.flags
    }

    /// The name that the store is to be asked for.
    pub fn name(&self) -> (name: &str)
        ensures
            name@ == self.name_of(),
    {
        self.name.as_str()
    }

    /// The flags to write.
    pub fn flags(&self) -> (flags: i32)
        ensures
            flags == self.flags_of(),
    {
        self.flags
    }

    /// Takes the answer of the store to the lookup and names the one write
    /// to make. Where the lookup failed, nothing is to be written and the
    /// failure is the result of the registration.
    pub fn decide(self, found: Result<bool, String>) -> (next: Result<
        StoreWrite,
        RegistrationError,
    >)
        ensures
            match found {
                Ok(exists) => next is Ok && next->Ok_0@ == write_for(
                    self.name_of(),
                    self.flags_of(),
                    exists,
                ),
                Err(report) => next == Err::<StoreWrite, RegistrationError>(
                    RegistrationError::StoreFailure(report),
                ),
            },
    {
        match found {
            Ok(true) => Ok(StoreWrite::UpdateFlags { name: self.name, flags: self.flags }),
            Ok(false) => Ok(StoreWrite::Insert { name: self.name, flags: self.flags }),
            Err(report) => Err(RegistrationError::StoreFailure(report)),
        }
    }
}

/// Starts a registration over `alphabet`: runs the local checks and, where
/// all pass, hands back the registration that waits for the lookup of its
/// name. An error means that the store is not to be touched.
pub fn begin_with(alphabet: &Alphabet, id: u64, flags: i32) -> (start: Result<
    Registration,
    RegistrationError,
>)
    ensures
        match start {
            Ok(registration) => plan(alphabet@, id as int) == Ok::<
                Seq<char>,
                RegistrationError,
            >(registration.name_of()) && registration.flags_of() == flags,
            Err(e) => plan(alphabet@, id as int) == Err::<Seq<char>, RegistrationError>(e),
        },
{
    if !in_range(alphabet, id) {
        return Err(RegistrationError::IdOutOfRange);
    }
    let name = decode(alphabet, id);
    match first_broken_rule(alphabet, name.as_str()) {
        Some(rule) => {
            let symbols = symbols_of(name.as_str());
            Err(RegistrationError::InvalidName { rule, violation: violation(rule, &symbols) })
        },
        None => Ok(Registration { name, flags }),
    }
}

/// Starts a registration over the base-38 alphabet.
pub fn begin(id: u64, flags: i32) -> (start: Result<Registration, RegistrationError>)
    ensures
        match start {
            Ok(registration) => plan(standard_symbols(), id as int) == Ok::<
                Seq<char>,
                RegistrationError,
            >(registration.name_of()) && registration.flags_of() == flags,
            Err(e) => plan(standard_symbols(), id as int) == Err::<Seq<char>, RegistrationError>(
                e,
            ),
        },
{
    begin_with(&Alphabet::standard(), id, flags)
}

/// Ends a registration with the outcome of its write: a failure of the
/// store is passed on as it was reported.
pub fn conclude(written: Result<(), String>) -> (result: Result<(), RegistrationError>)
    ensures
        result == match written {
            Ok(()) => Ok::<(), RegistrationError>(()),
            Err(report) => Err(RegistrationError::StoreFailure(report)),
        },
{
    match written {
        Ok(()) => Ok(()),
        Err(report) => Err(RegistrationError::StoreFailure(report)),
    }
}

/// Whether a store that holds `records`, the flags under each name, takes
/// `write`. A store keeps one record for a name: it refuses to insert a
/// name that it has.
pub open spec fn accepts(records: Map<Seq<char>, i32>, write: Write) -> bool {
    match write {
        Write::Insert { name, flags } => !records.contains_key(name),
        Write::UpdateFlags { name, flags } => true,
    }
}

/// What such a store holds after `write`. A write that it refuses changes
/// nothing, and neither does an update of a name that it does not have.
pub open spec fn written(records: Map<Seq<char>, i32>, write: Write) -> Map<Seq<char>, i32> {
    match write {
        Write::Insert { name, flags } => if records.contains_key(name) {
            records
        } else {
            records.insert(name, flags)
        },
        Write::UpdateFlags { name, flags } => if records.contains_key(name) {
            records.insert(name, flags)
        } else {
            records
        },
    }
}

/// How a registration ends.
pub enum Outcome {
    /// The record is in the store with the flags asked for.
    Registered,
    /// A local check failed; the store was not touched.
    Rejected(RegistrationError),
    /// The store refused the write.
    Refused,
}

/// The workflow run from start to end against a store that holds
/// `records` and answers truthfully: the records afterwards and the
/// outcome.
pub open spec fn run(symbols: Seq<char>, records: Map<Seq<char>, i32>, id: int, flags: i32) -> (
    Map<Seq<char>, i32>,
    Outcome,
) {
    match plan(symbols, id) {
        Err(e) => (records, Outcome::Rejected(e)),
        Ok(name) => {
            let write = write_for(name, flags, records.contains_key(name));
            if accepts(records, write) {
                (written(records, write), Outcome::Registered)
            } else {
                (records, Outcome::Refused)
            }
        },
    }
}

/// One registration makes one change: where the local checks pass, the
/// store takes the write, and afterwards it holds the given flags under
/// the name of the id and everything else as before. Where a check fails,
/// the store is as before.
pub proof fn lemma_one_write(symbols: Seq<char>, records: Map<Seq<char>, i32>, id: int, flags: i32)
    ensures
        match plan(symbols, id) {
            Ok(name) => run(symbols, records, id, flags) == (
                records.insert(name, flags),
                Outcome::Registered,
            ),
            Err(e) => run(symbols, records, id, flags) == (records, Outcome::Rejected(e)),
        },
{
}

/// Registering twice with the same id and flags ends as registering once:
/// the second run leaves the records of the first as they are and ends as
/// the first did, without an error where the first had none.
pub proof fn lemma_register_twice(
    symbols: Seq<char>,
    records: Map<Seq<char>, i32>,
    id: int,
    flags: i32,
)
    ensures
        run(symbols, run(symbols, records, id, flags).0, id, flags) == run(
            symbols,
            records,
            id,
            flags,
        ),
        plan(symbols, id) is Ok ==> run(symbols, run(symbols, records, id, flags).0, id, flags).1
            == Outcome::Registered,
{
    lemma_one_write(symbols, records, id, flags);
    if plan(symbols, id) is Ok {
        let name = plan(symbols, id)->Ok_0;
        let once = records.insert(name, flags);
        lemma_one_write(symbols, once, id, flags);
        assert(once.insert(name, flags) =~= once);
    }
}

/// Registering an id again with other flags updates its record: after
/// both runs the store holds the later flags under the name, the names it
/// holds are those it held before and this one, and every other record is
/// as it was.
pub proof fn lemma_register_again(
    symbols: Seq<char>,
    records: Map<Seq<char>, i32>,
    id: int,
    first: i32,
    second: i32,
)
    requires
        plan(symbols, id) is Ok,
    ensures
        ({
            let name = plan(symbols, id)->Ok_0;
            let after = run(symbols, run(symbols, records, id, first).0, id, second);
            &&& after.1 == Outcome::Registered
            &&& after.0 == records.insert(name, second)
            &&& after.0[name] == second
            &&& after.0.dom() == records.dom().insert(name)
            &&& forall|other: Seq<char>|
                other != name && records.contains_key(other) ==> after.0[other] == records[other]
        }),
{
    let name = plan(symbols, id)->Ok_0;
    lemma_one_write(symbols, records, id, first);
    let once = records.insert(name, first);
    lemma_one_write(symbols, once, id, second);
    assert(once.insert(name, second) =~= records.insert(name, second));
}

} // verus!
