//! The configuration of databases, as provided and with defaults filled in.
//!
//! Both forms are kept, and the provided one is what is stored. So a database that is loaded runs
//! the configuration that it would run if its rules were provided again.

use crate::field_violation::FieldViolation;
use crate::object_id::Uuid;
use crate::text::joined;
use std::sync::Arc;
use vstd::prelude::*;

verus! {

use crate::object_id::{big_endian, decimal_text, uuid_error_text};
use vstd::arithmetic::power::pow;

/// Why rules could not be loaded or persisted. `S` is an error of the object store, `D` one of
/// reading a message and `E` one of writing it.
#[allow(inconsistent_fields)]
#[derive(Debug)]
pub enum Error<S, D, E> {
    /// The rules could not be saved.
    ObjectStore { db_name: String, source: S },
    /// The message with the rules could not be read.
    Deserialization { source: D },
    /// The message with the rules could not be written.
    Serialization { source: E },
    /// The rules could not be fetched.
    RulesFetch { source: S },
    /// The message does not hold rules.
    ConvertingRules { source: FieldViolation },
}

/// What an error says, in words, given what its source says.
pub open spec fn error_text<S, D, E>(error: Error<S, D, E>, source: Seq<char>) -> Seq<char> {
    match error {
        Error::ObjectStore { db_name, .. } => {
            "Error saving rules for "@ + db_name@ + ": "@ + source
        },
        Error::Deserialization { .. } => "error deserializing database rules: "@ + source,
        Error::Serialization { .. } => "error serializing database rules: "@ + source,
        Error::RulesFetch { .. } => "error fetching rules: "@ + source,
        Error::ConvertingRules { .. } => "error converting grpc to database rules: "@ + source,
    }
}

impl<S, D, E> Error<S, D, E> {
    /// What the error says, in words, given what its source says.
    pub fn message(&self, source: &str) -> (message: String)
        ensures
            message@ == error_text(*self, source@),
            match *self {
                Error::ObjectStore { db_name, .. } => message@ == "Error saving rules for "@
                    + db_name@ + ": "@ + source@,
                Error::Deserialization { .. } => message@ == "error deserializing database rules: "@
                    + source@,
                Error::Serialization { .. } => message@ == "error serializing database rules: "@
                    + source@,
                Error::RulesFetch { .. } => message@ == "error fetching rules: "@ + source@,
                Error::ConvertingRules { .. } => message@
                    == "error converting grpc to database rules: "@ + source@,
            },
    {
        match self {
            Error::ObjectStore { db_name, .. } => {
                let message = joined("Error saving rules for ", db_name.as_str());
                let message = joined(message.as_str(), ": ");
                joined(message.as_str(), source)
            },
            Error::Deserialization { .. } => joined("error deserializing database rules: ", source),
            Error::Serialization { .. } => joined("error serializing database rules: ", source),
            Error::RulesFetch { .. } => joined("error fetching rules: ", source),
            Error::ConvertingRules { .. } => joined(
                "error converting grpc to database rules: ",
                source,
            ),
        }
    }
}

/// Full rules of a database: its name, and what else there is to its configuration.
#[derive(Debug)]
pub struct DatabaseRules<R> {
    pub name: String,
    pub rest: R,
}

impl<R: Clone> Clone for DatabaseRules<R> {
    /// The same name, with a clone of the rest.
    fn clone(&self) -> (copy: Self)
        ensures
            copy.name@ == self.name@,
            cloned(self.rest, copy.rest),
    {
        DatabaseRules { name: self.name.clone(), rest: self.rest.clone() }
    }
}

/// Rules as provided in a message, some of which may not be set.
#[derive(Debug)]
pub struct RulesMessage<M> {
    pub name: String,
    pub rest: M,
}

impl<M: Clone> Clone for RulesMessage<M> {
    /// The same name, with a clone of the rest.
    fn clone(&self) -> (copy: Self)
        ensures
            copy.name@ == self.name@,
            cloned(self.rest, copy.rest),
    {
        RulesMessage { name: self.name.clone(), rest: self.rest.clone() }
    }
}

/// Rules as persisted in a message.
#[derive(Debug)]
pub struct PersistedRulesMessage<T> {
    pub uuid: Vec<u8>,
    pub rules: Option<T>,
}

/// The configuration used to create and update databases, both in original and "materialized"
/// (with defaults filled in) form.
#[derive(Debug)]
pub struct ProvidedDatabaseRules<M, R> {
    /// Full database rules, with all fields set. Derived from `original` by applying default
    /// values.
    full: Arc<DatabaseRules<R>>,
    /// Database rules as provided by the user and as stored in the object store (may not have
    /// all fields set).
    original: RulesMessage<M>,
}

/// Provided rules in both forms.
pub struct ProvidedView<M, R> {
    pub full: DatabaseRules<R>,
    pub original: RulesMessage<M>,
}

impl<M, R> View for ProvidedDatabaseRules<M, R> {
    type V = ProvidedView<M, R>;

    closed spec fn view(&self) -> ProvidedView<M, R> {
        ProvidedView { full: *self.full, original: self.original }
    }
}

impl<M: Clone, R> Clone for ProvidedDatabaseRules<M, R> {
    /// The same full rules, with a clone of the original ones.
    fn clone(&self) -> (copy: Self)
        ensures
            copy@.full == self@.full,
            copy@.original.name@ == self@.original.name@,
            cloned(self@.original.rest, copy@.original.rest),
    {
        ProvidedDatabaseRules { full: self.full.clone(), original: self.original.clone() }
    }
}

/// What rules that were provided come to: both forms, if the defaults can be filled in.
pub open spec fn is_provided<M, R, C>(
    original: RulesMessage<M>,
    convert: C,
    result: Result<ProvidedView<M, R>, FieldViolation>,
) -> bool where C: Fn(&RulesMessage<M>) -> Result<DatabaseRules<R>, FieldViolation> {
    match result {
        Ok(rules) => {
            &&& rules.original == original
            &&& convert.ensures((&original,), Ok(rules.full))
        },
        Err(violation) => convert.ensures((&original,), Err(violation)),
    }
}

impl<M, R> ProvidedDatabaseRules<M, R> {
    /// Create the rules of a new database, with nothing set but its name. `convert` fills in the
    /// defaults, which it is always able to do here.
    pub fn new_empty<C>(db_name: String, empty: M, convert: C) -> (rules: Self) where
        C: Fn(&RulesMessage<M>) -> Result<DatabaseRules<R>, FieldViolation>,

        requires
            convert.requires((&RulesMessage { name: db_name, rest: empty },)),
            forall|full: Result<DatabaseRules<R>, FieldViolation>|
                convert.ensures((&RulesMessage { name: db_name, rest: empty },), full)
                    ==> full is Ok,
        ensures
            rules@.original == (RulesMessage { name: db_name, rest: empty }),
            convert.ensures((&rules@.original,), Ok(rules@.full)),
    {
        let original = RulesMessage { name: db_name, rest: empty };
        match convert(&original) {
            Ok(full) => ProvidedDatabaseRules { full: Arc::new(full), original },
            Err(_) => {
                assert(false);
                vstd::pervasive::unreached()
            },
        }
    }

    /// The rules provided in a message, if `convert` can fill in the rest.
    pub fn new_rules<C>(original: RulesMessage<M>, convert: C) -> (result: Result<
        Self,
        FieldViolation,
    >) where C: Fn(&RulesMessage<M>) -> Result<DatabaseRules<R>, FieldViolation>
        requires
            convert.requires((&original,)),
        ensures
            is_provided(
                original,
                convert,
                match result {
                    Ok(rules) => Ok(rules@),
                    Err(violation) => Err(violation),
                },
            ),
            match result {
                Ok(rules) => {
                    &&& rules@.original == original
                    &&& convert.ensures((&original,), Ok(rules@.full))
                },
                Err(violation) => convert.ensures((&original,), Err(violation)),
            },
    {
        match convert(&original) {
            Ok(full) => Ok(ProvidedDatabaseRules { full: Arc::new(full), original }),
            Err(violation) => Err(violation),
        }
    }

    /// Returns the name of the database in the rules.
    pub fn db_name(&self) -> (db_name: &str)
        ensures
            db_name@ == self@.full.name@,
    {
        self.full.name.as_str()
    }

    /// Return the full database rules.
    pub fn rules(&self) -> (rules: &Arc<DatabaseRules<R>>)
        ensures
            **rules == self@.full,
    {
        &self.full
    }

    /// Return the original rules provided to this.
    pub fn original(&self) -> (original: &RulesMessage<M>)
        ensures
            *original == self@.original,
    {
        &self.original
    }
}

/// Provided rules with the identifier of the database.
#[derive(Debug)]
pub struct PersistedDatabaseRules<M, R> {
    uuid: Uuid,
    provided: Arc<ProvidedDatabaseRules<M, R>>,
}

/// Provided rules in both forms, with the identifier of the database.
pub struct PersistedView<M, R> {
    pub uuid: Uuid,
    pub provided: ProvidedView<M, R>,
}

impl<M, R> View for PersistedDatabaseRules<M, R> {
    type V = PersistedView<M, R>;

    closed spec fn view(&self) -> PersistedView<M, R> {
        PersistedView { uuid: self.uuid, provided: self.provided@ }
    }
}

impl<M, R> Clone for PersistedDatabaseRules<M, R> {
    /// The same rules.
    fn clone(&self) -> (copy: Self)
        ensures
            copy@ == self@,
    {
        PersistedDatabaseRules { uuid: self.uuid, provided: self.provided.clone() }
    }
}

/// What the rules in a persisted message are: `converted` is what becomes of the original rules
/// when the defaults are filled in, if the message has any. The rules have to be there, have to
/// convert, and have to have an identifier of sixteen bytes; it is looked at in this order.
pub open spec fn is_unpacked<M, R>(
    message: PersistedRulesMessage<RulesMessage<M>>,
    converted: Result<DatabaseRules<R>, FieldViolation>,
    result: Result<PersistedView<M, R>, FieldViolation>,
) -> bool {
    match (message.rules, converted) {
        (None, _) => {
            &&& result matches Err(FieldViolation::Required { field })
            &&& field@ == "rules"@
        },
        (Some(original), Err(violation)) => result == Err::<PersistedView<M, R>, FieldViolation>(
            violation,
        ),
        (Some(original), Ok(full)) => if message.uuid@.len() == 16 {
            result == Ok::<PersistedView<M, R>, FieldViolation>(
                PersistedView {
                    uuid: Uuid { value: big_endian(message.uuid@) as u128 },
                    provided: ProvidedView { full, original },
                },
            )
        } else {
            &&& result matches Err(FieldViolation::Invalid { field, description })
            &&& field@ == "uuid"@
            &&& description@ == uuid_error_text(message.uuid@.len())
        },
    }
}

/// The result with what it holds in place of the rules.
pub open spec fn viewed<M, R, X>(
    result: Result<PersistedDatabaseRules<M, R>, X>,
) -> Result<PersistedView<M, R>, X> {
    match result {
        Ok(rules) => Ok(rules@),
        Err(x) => Err(x),
    }
}

impl<M, R> PersistedDatabaseRules<M, R> {
    /// Provided rules of the database with the given identifier.
    pub fn new(uuid: Uuid, provided: ProvidedDatabaseRules<M, R>) -> (rules: Self)
        ensures
            rules@ == (PersistedView { uuid, provided: provided@ }),
    {
        PersistedDatabaseRules { uuid, provided: Arc::new(provided) }
    }

    /// The provided rules.
    pub fn provided_rules(&self) -> (provided: Arc<ProvidedDatabaseRules<M, R>>)
        ensures
            provided@ == self@.provided,
    {
        self.provided.clone()
    }

    /// The identifier of the database.
    pub fn uuid(&self) -> (uuid: Uuid)
        ensures
            uuid == self@.uuid,
    {
        self.uuid
    }

    /// Returns the name of the database in the rules.
    pub fn db_name(&self) -> (db_name: &str)
        ensures
            db_name@ == self@.provided.full.name@,
    {
        self.provided.db_name()
    }

    /// Return the full database rules.
    pub fn rules(&self) -> (rules: &Arc<DatabaseRules<R>>)
        ensures
            **rules == self@.provided.full,
    {
        self.provided.rules()
    }

    /// Return the original rules provided to this.
    pub fn original(&self) -> (original: &RulesMessage<M>)
        ensures
            *original == self@.provided.original,
    {
        self.provided.original()
    }

    /// The rules in a message.
    pub fn try_from<C>(message: PersistedRulesMessage<RulesMessage<M>>, convert: C) -> (result:
        Result<Self, FieldViolation>) where
        C: Fn(&RulesMessage<M>) -> Result<DatabaseRules<R>, FieldViolation>,

        requires
            message.rules matches Some(original) ==> convert.requires((&original,)),
        ensures
            exists|converted: Result<DatabaseRules<R>, FieldViolation>|
                {
                    &&& message.rules matches Some(original) ==> convert.ensures(
                        (&original,),
                        converted,
                    )
                    &&& #[trigger] is_unpacked(message, converted, viewed(result))
                },
            result matches Ok(rules) ==> {
                &&& message.rules == Some(rules@.provided.original)
                &&& convert.ensures((&rules@.provided.original,), Ok(rules@.provided.full))
                &&& message.uuid@.len() == 16
                &&& rules@.uuid.value == big_endian(message.uuid@)
            },
    {
        let original = match message.rules {
            Some(original) => original,
            None => {
                let result = Err(FieldViolation::required("rules"));
                assert(is_unpacked(message, arbitrary(), viewed(result)));
                return result;
            },
        };
        let converted = convert(&original);
        let ghost outcome = converted;
        let full = match converted {
            Ok(full) => full,
            Err(violation) => {
                let result = Err(violation);
                assert(is_unpacked(message, outcome, viewed(result)));
                return result;
            },
        };
        let uuid = match Uuid::from_slice(message.uuid.as_slice()) {
            Ok(uuid) => uuid,
            Err(description) => {
                let field = "uuid".to_owned();
                let result = Err(FieldViolation::Invalid { field, description });
                assert(is_unpacked(message, outcome, viewed(result)));
                return result;
            },
        };
        let provided = ProvidedDatabaseRules { full: Arc::new(full), original };
        let result = Ok(PersistedDatabaseRules { uuid, provided: Arc::new(provided) });
        assert(is_unpacked(message, outcome, viewed(result)));
        result
    }

    /// Load the rules from what was fetched from object storage. `decode` reads the message in
    /// it, and `convert` fills in the defaults.
    pub fn load<S, D, E, G, C>(fetched: Result<Vec<u8>, S>, decode: G, convert: C) -> (result:
        Result<Self, Error<S, D, E>>) where
        G: Fn(Vec<u8>) -> Result<PersistedRulesMessage<RulesMessage<M>>, D>,
        C: Fn(&RulesMessage<M>) -> Result<DatabaseRules<R>, FieldViolation>,

        requires
            fetched matches Ok(bytes) ==> decode.requires((bytes,)),
            forall|bytes: Vec<u8>, message: PersistedRulesMessage<RulesMessage<M>>|
                fetched == Ok::<Vec<u8>, S>(bytes) && decode.ensures((bytes,), Ok(message)) ==> (
                message.rules matches Some(original) ==> convert.requires((&original,))),
        ensures
            is_loaded_from(fetched, decode, convert, result),
    {
        let bytes = match fetched {
            Ok(bytes) => bytes,
            Err(source) => {
                return Err(Error::RulesFetch { source });
            },
        };
        let decoded = decode(bytes);
        let ghost outcome = decoded;
        let message = match decoded {
            Ok(message) => message,
            Err(source) => {
                let result = Err(Error::Deserialization { source });
                assert(is_loaded(
                    outcome,
                    arbitrary::<Result<DatabaseRules<R>, FieldViolation>>(),
                    result,
                ));
                return result;
            },
        };
        let unpacked = Self::try_from(message, convert);
        let ghost converted = choose|converted: Result<DatabaseRules<R>, FieldViolation>|
            {
                &&& message.rules matches Some(original) ==> convert.ensures(
                    (&original,),
                    converted,
                )
                &&& #[trigger] is_unpacked(message, converted, viewed(unpacked))
            };
        let result = match unpacked {
            Ok(rules) => Ok(rules),
            Err(source) => Err(Error::ConvertingRules { source }),
        };
        assert(is_loaded(outcome, converted, result));
        result
    }

    /// The message that the rules are persisted in: it has the rules as they were provided.
    pub fn message(&self) -> (message: PersistedRulesMessage<&RulesMessage<M>>)
        ensures
            is_packed(self@, message),
            message.uuid@.len() == 16,
            big_endian(message.uuid@) == self@.uuid.value,
            message.rules == Some(&self@.provided.original),
    {
        PersistedRulesMessage {
            uuid: self.uuid.as_bytes(),
            // Note we save the original version
            rules: Some(self.original()),
        }
    }

    /// The bytes to persist to object storage, where `encode` writes the message.
    pub fn persist<S, D, E, W>(&self, encode: W) -> (result: Result<Vec<u8>, Error<S, D, E>>) where
        W: Fn(PersistedRulesMessage<&RulesMessage<M>>) -> Result<Vec<u8>, E>,

        requires
            forall|message: PersistedRulesMessage<&RulesMessage<M>>|
                is_packed(self@, message) ==> encode.requires((message,)),
        ensures
            is_persisted(encode, self@, result),
    {
        match encode(self.message()) {
            Ok(bytes) => Ok(bytes),
            Err(source) => Err(Error::Serialization { source }),
        }
    }

    /// What came of persisting the rules, given what came of putting the bytes into object
    /// storage.
    pub fn persisted<S, D, E>(&self, put: Result<(), S>) -> (result: Result<(), Error<S, D, E>>)
        ensures
            match (put, result) {
                (Ok(_), Ok(_)) => true,
                (Err(put), Err(Error::ObjectStore { db_name, source })) => {
                    &&& source == put
                    &&& db_name@ == self@.provided.full.name@
                },
                _ => false,
            },
    {
        match put {
            Ok(_) => Ok(()),
            Err(source) => Err(Error::ObjectStore { db_name: self.db_name().to_owned(), source }),
        }
    }
}

/// The message holds the identifier and the rules as they were provided.
pub open spec fn is_packed<M, R>(
    rules: PersistedView<M, R>,
    message: PersistedRulesMessage<&RulesMessage<M>>,
) -> bool {
    &&& message.uuid@.len() == 16
    &&& big_endian(message.uuid@) == rules.uuid.value
    &&& message.rules == Some(&rules.provided.original)
}

/// What comes of loading rules, once they were fetched: `decoded` is the message in them, and
/// `converted` what becomes of its rules when the defaults are filled in.
pub open spec fn is_loaded<M, R, S, D, E>(
    decoded: Result<PersistedRulesMessage<RulesMessage<M>>, D>,
    converted: Result<DatabaseRules<R>, FieldViolation>,
    result: Result<PersistedDatabaseRules<M, R>, Error<S, D, E>>,
) -> bool {
    match (decoded, result) {
        (Err(error), Err(Error::Deserialization { source })) => source == error,
        (Ok(message), Ok(rules)) => is_unpacked(message, converted, Ok(rules@)),
        (Ok(message), Err(Error::ConvertingRules { source })) => is_unpacked(
            message,
            converted,
            Err(source),
        ),
        _ => false,
    }
}

/// What comes of loading rules: an error if they could not be fetched, and otherwise what the
/// message in them comes to.
pub open spec fn is_loaded_from<M, R, S, D, E, G, C>(
    fetched: Result<Vec<u8>, S>,
    decode: G,
    convert: C,
    result: Result<PersistedDatabaseRules<M, R>, Error<S, D, E>>,
) -> bool where
    G: Fn(Vec<u8>) -> Result<PersistedRulesMessage<RulesMessage<M>>, D>,
    C: Fn(&RulesMessage<M>) -> Result<DatabaseRules<R>, FieldViolation>,
 {
    match fetched {
        Err(source) => result == Err::<PersistedDatabaseRules<M, R>, Error<S, D, E>>(
            Error::RulesFetch { source },
        ),
        Ok(bytes) => exists|
            decoded: Result<PersistedRulesMessage<RulesMessage<M>>, D>,
            converted: Result<DatabaseRules<R>, FieldViolation>,
        |
            {
                &&& decode.ensures((bytes,), decoded)
                &&& decoded matches Ok(message) ==> (message.rules matches Some(original)
                    ==> convert.ensures((&original,), converted))
                &&& #[trigger] is_loaded(decoded, converted, result)
            },
    }
}

/// What comes of persisting rules: the bytes that were written of the message with them, or an
/// error if it could not be written.
pub open spec fn is_persisted<M, R, S, D, E, W>(
    encode: W,
    rules: PersistedView<M, R>,
    result: Result<Vec<u8>, Error<S, D, E>>,
) -> bool where W: Fn(PersistedRulesMessage<&RulesMessage<M>>) -> Result<Vec<u8>, E> {
    exists|message: PersistedRulesMessage<&RulesMessage<M>>, encoded: Result<Vec<u8>, E>|
        {
            &&& #[trigger] is_packed(rules, message)
            &&& #[trigger] encode.ensures((message,), encoded)
            &&& match encoded {
                Ok(bytes) => result == Ok::<Vec<u8>, Error<S, D, E>>(bytes),
                Err(source) => result == Err::<Vec<u8>, Error<S, D, E>>(
                    Error::Serialization { source },
                ),
            }
        }
}

/// A message holds rules if and only if it has some, the defaults can be filled in, and its
/// identifier has sixteen bytes. It is looked at in this order, and the first that is amiss is
/// named. What it holds are the very rules in it, the full ones made of them, and the identifier
/// that its bytes make.
pub proof fn law_what_a_message_holds<M, R>(
    message: PersistedRulesMessage<RulesMessage<M>>,
    converted: Result<DatabaseRules<R>, FieldViolation>,
    result: Result<PersistedView<M, R>, FieldViolation>,
)
    requires
        is_unpacked(message, converted, result),
    ensures
        result is Ok <==> message.rules is Some && converted is Ok && message.uuid@.len() == 16,
        result matches Ok(rules) ==> {
            &&& rules.provided.original == message.rules->0
            &&& rules.provided.full == converted->Ok_0
            &&& rules.uuid.value == big_endian(message.uuid@)
        },
        message.rules is None ==> (result matches Err(FieldViolation::Required { field }) && field@
            == "rules"@),
        message.rules is Some && converted is Err ==> result->Err_0 == converted->Err_0,
        message.rules is Some && converted is Ok && message.uuid@.len() != 16 ==> {
            &&& result matches Err(FieldViolation::Invalid { field, description })
            &&& field@ == "uuid"@
            &&& description@ == "invalid bytes length: expected "@ + decimal_text(16) + ", found "@
                + decimal_text(message.uuid@.len())
        },
{
    if message.uuid@.len() == 16 {
        lemma_big_endian_bound(message.uuid@);
    }
}

proof fn lemma_big_endian_bound(bytes: Seq<u8>)
    requires
        bytes.len() == 16,
    ensures
        big_endian(bytes) <= u128::MAX,
{
    lemma_big_endian_pow(bytes);
    assert(pow(256, 16) == 0x1_00000000_00000000_00000000_00000000) by {
        reveal_with_fuel(pow, 17);
    }
}

proof fn lemma_big_endian_pow(bytes: Seq<u8>)
    ensures
        big_endian(bytes) < pow(256, bytes.len()),
    decreases bytes.len(),
{
    reveal_with_fuel(pow, 1);
    if bytes.len() > 0 {
        lemma_big_endian_pow(bytes.drop_last());
    }
}

/// What comes of loading rules, step by step: what went wrong with fetching them, with reading the
/// message and with the rules in it is handed on as it is, each under its own name, and otherwise
/// the rules are those of the message.
pub proof fn law_loading_step_by_step<M, R, S, D, E, G, C>(
    fetched: Result<Vec<u8>, S>,
    decode: G,
    convert: C,
    result: Result<PersistedDatabaseRules<M, R>, Error<S, D, E>>,
) where
    G: Fn(Vec<u8>) -> Result<PersistedRulesMessage<RulesMessage<M>>, D>,
    C: Fn(&RulesMessage<M>) -> Result<DatabaseRules<R>, FieldViolation>,

    requires
        is_loaded_from(fetched, decode, convert, result),
    ensures
        fetched matches Err(e) ==> (result matches Err(Error::RulesFetch { source }) && source
            == e),
        fetched matches Ok(bytes) ==> exists|
            decoded: Result<PersistedRulesMessage<RulesMessage<M>>, D>,
            converted: Result<DatabaseRules<R>, FieldViolation>,
        |
            #![trigger is_loaded(decoded, converted, result)]
            {
                &&& decode.ensures((bytes,), decoded)
                &&& decoded matches Ok(message) ==> (message.rules matches Some(original)
                    ==> convert.ensures((&original,), converted))
                &&& match (decoded, result) {
                    (Err(e), Err(Error::Deserialization { source })) => source == e,
                    (Ok(message), Ok(rules)) => is_unpacked(message, converted, Ok(rules@)),
                    (Ok(message), Err(Error::ConvertingRules { source })) => is_unpacked(
                        message,
                        converted,
                        Err(source),
                    ),
                    _ => false,
                }
            },
{
    if let Ok(bytes) = fetched {
        let (decoded, converted) = choose|
            decoded: Result<PersistedRulesMessage<RulesMessage<M>>, D>,
            converted: Result<DatabaseRules<R>, FieldViolation>,
        |
            {
                &&& decode.ensures((bytes,), decoded)
                &&& decoded matches Ok(message) ==> (message.rules matches Some(original)
                    ==> convert.ensures((&original,), converted))
                &&& #[trigger] is_loaded(decoded, converted, result)
            };
        assert(is_loaded(decoded, converted, result));
    }
}

/// What is persisted of rules are the identifier and the rules as they were provided, not those
/// with the defaults filled in: whatever the defaults are, the same message is written.
pub proof fn law_the_original_is_persisted<M, R>(
    uuid: Uuid,
    original: RulesMessage<M>,
    full: DatabaseRules<R>,
    other_full: DatabaseRules<R>,
    message: PersistedRulesMessage<&RulesMessage<M>>,
)
    ensures
        is_packed(PersistedView { uuid, provided: ProvidedView { full, original } }, message)
            <==> is_packed(
            PersistedView { uuid, provided: ProvidedView { full: other_full, original } },
            message,
        ),
        is_packed(PersistedView { uuid, provided: ProvidedView { full, original } }, message) <==> {
            &&& message.uuid@.len() == 16
            &&& big_endian(message.uuid@) == uuid.value
            &&& message.rules == Some(&original)
        },
{
}

/// What comes of persisting: the bytes that were written of the message, or what went wrong with
/// writing it.
pub proof fn law_what_is_persisted<M, R, S, D, E, W>(
    encode: W,
    rules: PersistedView<M, R>,
    result: Result<Vec<u8>, Error<S, D, E>>,
) where W: Fn(PersistedRulesMessage<&RulesMessage<M>>) -> Result<Vec<u8>, E>
    requires
        is_persisted(encode, rules, result),
    ensures
        exists|message: PersistedRulesMessage<&RulesMessage<M>>, encoded: Result<Vec<u8>, E>|
            {
                &&& #[trigger] encode.ensures((message,), encoded)
                &&& message.uuid@.len() == 16
                &&& big_endian(message.uuid@) == rules.uuid.value
                &&& message.rules == Some(&rules.provided.original)
                &&& match (encoded, result) {
                    (Ok(bytes), Ok(written)) => written == bytes,
                    (Err(e), Err(Error::Serialization { source })) => source == e,
                    _ => false,
                }
            },
{
}

/// Rules that were provided are the same.
pub open spec fn same_original<M>(rules: RulesMessage<M>, other: RulesMessage<M>) -> bool {
    rules.name@ == other.name@ && rules.rest == other.rest
}

/// Full rules are the same.
pub open spec fn same_full<R>(rules: DatabaseRules<R>, other: DatabaseRules<R>) -> bool {
    rules.name@ == other.name@ && rules.rest == other.rest
}

/// What is written of a message is read as it was sent.
pub open spec fn messages_arrive<M, D, E, W, G>(encode: W, decode: G) -> bool where
    W: Fn(PersistedRulesMessage<&RulesMessage<M>>) -> Result<Vec<u8>, E>,
    G: Fn(Vec<u8>) -> Result<PersistedRulesMessage<RulesMessage<M>>, D>,
 {
    forall|
        message: PersistedRulesMessage<&RulesMessage<M>>,
        encoded: Result<Vec<u8>, E>,
        bytes: Vec<u8>,
        decoded: Result<PersistedRulesMessage<RulesMessage<M>>, D>,
    |
        #[trigger] encode.ensures((message,), encoded) && #[trigger] decode.ensures(
            (bytes,),
            decoded,
        ) && (encoded matches Ok(written) && bytes@ == written@) ==> (decoded matches Ok(read) && {
            &&& read.uuid@ == message.uuid@
            &&& read.rules is Some <==> message.rules is Some
            &&& read.rules matches Some(rules) ==> same_original(rules, *message.rules->0)
        })
}

/// Filling in the defaults gives the same for the same rules, here `full`.
pub open spec fn always_converts<M, R, C>(
    convert: C,
    original: RulesMessage<M>,
    full: DatabaseRules<R>,
) -> bool where C: Fn(&RulesMessage<M>) -> Result<DatabaseRules<R>, FieldViolation> {
    forall|rules: RulesMessage<M>, converted: Result<DatabaseRules<R>, FieldViolation>|
        same_original(rules, original) && #[trigger] convert.ensures((&rules,), converted) ==> (
        converted matches Ok(converted) && same_full(converted, full))
}

/// Rules that were persisted are loaded again as they were provided, where messages are read as
/// they were sent, with the identifier they had and the defaults of the day filled in, here
/// `full`: so if the defaults are the same, the full rules are, too.
pub proof fn law_load_gives_back_what_was_persisted<M, R, S, D, E, W, G, C>(
    rules: PersistedView<M, R>,
    encode: W,
    decode: G,
    convert: C,
    written: Vec<u8>,
    fetched: Vec<u8>,
    full: DatabaseRules<R>,
    result: Result<PersistedDatabaseRules<M, R>, Error<S, D, E>>,
) where
    W: Fn(PersistedRulesMessage<&RulesMessage<M>>) -> Result<Vec<u8>, E>,
    G: Fn(Vec<u8>) -> Result<PersistedRulesMessage<RulesMessage<M>>, D>,
    C: Fn(&RulesMessage<M>) -> Result<DatabaseRules<R>, FieldViolation>,

    requires
        messages_arrive(encode, decode),
        always_converts(convert, rules.provided.original, full),
        is_persisted(encode, rules, Ok::<Vec<u8>, Error<S, D, E>>(written)),
        fetched@ == written@,
        is_loaded_from(Ok(fetched), decode, convert, result),
    ensures
        result matches Ok(loaded) && {
            &&& loaded@.uuid == rules.uuid
            &&& same_original(loaded@.provided.original, rules.provided.original)
            &&& same_full(loaded@.provided.full, full)
        },
{
    let (message, encoded) = choose|
        message: PersistedRulesMessage<&RulesMessage<M>>,
        encoded: Result<Vec<u8>, E>,
    |
        {
            &&& #[trigger] is_packed(rules, message)
            &&& #[trigger] encode.ensures((message,), encoded)
            &&& encoded == Ok::<Vec<u8>, E>(written)
        };
    let (decoded, converted) = choose|
        decoded: Result<PersistedRulesMessage<RulesMessage<M>>, D>,
        converted: Result<DatabaseRules<R>, FieldViolation>,
    |
        {
            &&& decode.ensures((fetched,), decoded)
            &&& decoded matches Ok(message) ==> (message.rules matches Some(original)
                ==> convert.ensures((&original,), converted))
            &&& #[trigger] is_loaded(decoded, converted, result)
        };
    let read = decoded->Ok_0;
    assert(read.uuid@ == message.uuid@);
    assert(same_original(read.rules->0, rules.provided.original));
    assert(convert.ensures((&read.rules->0,), converted));
}

/// A database runs the same configuration whether the rules it has persisted are loaded or are
/// provided once more, where messages are read as they were sent and filling in the defaults
/// gives the same for the same rules.
pub proof fn law_rules_provided_again<M, R, S, D, E, W, G, C>(
    original: RulesMessage<M>,
    repeated: RulesMessage<M>,
    provided: ProvidedView<M, R>,
    again: ProvidedView<M, R>,
    uuid: Uuid,
    encode: W,
    decode: G,
    convert: C,
    written: Vec<u8>,
    fetched: Vec<u8>,
    full: DatabaseRules<R>,
    result: Result<PersistedDatabaseRules<M, R>, Error<S, D, E>>,
) where
    W: Fn(PersistedRulesMessage<&RulesMessage<M>>) -> Result<Vec<u8>, E>,
    G: Fn(Vec<u8>) -> Result<PersistedRulesMessage<RulesMessage<M>>, D>,
    C: Fn(&RulesMessage<M>) -> Result<DatabaseRules<R>, FieldViolation>,

    requires
        messages_arrive(encode, decode),
        always_converts(convert, original, full),
        is_provided(original, convert, Ok(provided)),
        same_original(repeated, original),
        is_provided(repeated, convert, Ok(again)),
        is_persisted(
            encode,
            PersistedView { uuid, provided },
            Ok::<Vec<u8>, Error<S, D, E>>(written),
        ),
        fetched@ == written@,
        is_loaded_from(Ok(fetched), decode, convert, result),
    ensures
        same_full(again.full, provided.full),
        same_original(again.original, provided.original),
        result matches Ok(loaded) && {
            &&& loaded@.uuid == uuid
            &&& same_original(loaded@.provided.original, again.original)
            &&& same_full(loaded@.provided.full, again.full)
        },
{
    law_load_gives_back_what_was_persisted(
        PersistedView { uuid, provided },
        encode,
        decode,
        convert,
        written,
        fetched,
        full,
        result,
    );
}

} // verus!
