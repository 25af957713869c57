use iox_core::field_violation::FieldViolation;
use iox_core::object_id::Uuid;
use iox_core::rules::{
    DatabaseRules, Error, PersistedDatabaseRules, PersistedRulesMessage, ProvidedDatabaseRules,
    RulesMessage,
};

/// Rules with one setting, which may not be set, and is 7 by default. A database needs a name.
type Message = RulesMessage<Option<u32>>;
type Rules = PersistedDatabaseRules<Option<u32>, u32>;

fn convert(message: &Message) -> Result<DatabaseRules<u32>, FieldViolation> {
    if message.name.is_empty() {
        return Err(FieldViolation::required("name"));
    }
    Ok(DatabaseRules { name: message.name.clone(), rest: message.rest.unwrap_or(7) })
}

fn message(name: &str, rest: Option<u32>) -> Message {
    RulesMessage { name: name.to_owned(), rest }
}

const ID: Uuid = Uuid { value: 0x00112233_44556677_8899aabb_ccddeeff };

#[test]
fn empty_rules_have_a_name_and_defaults() {
    let rules = ProvidedDatabaseRules::new_empty("db".to_owned(), None, convert);
    assert_eq!(rules.db_name(), "db");
    assert_eq!(rules.rules().rest, 7);
    assert_eq!(rules.original().name, "db");
    assert_eq!(rules.original().rest, None);
}

#[test]
fn provided_rules_keep_both_forms() {
    let rules = ProvidedDatabaseRules::new_rules(message("db", Some(3)), convert).unwrap();
    assert_eq!(rules.rules().rest, 3);
    assert_eq!(rules.original().rest, Some(3));

    match ProvidedDatabaseRules::new_rules(message("", None), convert) {
        Err(violation) => assert_eq!(violation, FieldViolation::required("name")),
        Ok(rules) => panic!("{:?}", rules),
    }
}

fn persisted() -> Rules {
    let provided = ProvidedDatabaseRules::new_rules(message("db", None), convert).unwrap();
    PersistedDatabaseRules::new(ID, provided)
}

#[test]
fn persisted_rules() {
    let rules = persisted();
    assert_eq!(rules.uuid(), ID);
    assert_eq!(rules.db_name(), "db");
    assert_eq!(rules.rules().rest, 7);
    assert_eq!(rules.original().rest, None);
    assert_eq!(rules.provided_rules().db_name(), "db");
}

#[test]
fn the_original_rules_are_persisted() {
    let rules = persisted();
    let message = rules.message();
    assert_eq!(
        message.uuid,
        vec![
            0x00, 0x11, 0x22, 0x33, 0x44, 0x55, 0x66, 0x77, 0x88, 0x99, 0xaa, 0xbb, 0xcc, 0xdd,
            0xee, 0xff
        ],
    );
    assert_eq!(message.rules.unwrap().rest, None);
}

#[test]
fn rules_are_loaded_as_they_were_persisted() {
    let rules = persisted();
    let sent = rules.message();
    let original = sent.rules.unwrap();
    let read = PersistedRulesMessage {
        uuid: sent.uuid,
        rules: Some(message(&original.name, original.rest)),
    };
    let loaded = Rules::try_from(read, convert).unwrap();
    assert_eq!(loaded.uuid(), rules.uuid());
    assert_eq!(loaded.db_name(), rules.db_name());
    assert_eq!(loaded.original().rest, rules.original().rest);
    assert_eq!(loaded.rules().rest, rules.rules().rest);
}

#[test]
fn what_is_wrong_with_a_message() {
    let violation = |uuid: Vec<u8>, rules: Option<Message>| {
        Rules::try_from(PersistedRulesMessage { uuid, rules }, convert).unwrap_err()
    };
    // the rules come first, then what is in them, and then the identifier
    assert_eq!(violation(vec![], None), FieldViolation::required("rules"));
    assert_eq!(
        violation(vec![], Some(message("", None))),
        FieldViolation::required("name"),
    );
    assert_eq!(
        violation(vec![1, 2], Some(message("db", None))),
        FieldViolation::Invalid {
            field: "uuid".to_owned(),
            description: "invalid bytes length: expected 16, found 2".to_owned(),
        },
    );
    assert_eq!(
        violation(vec![0; 120], Some(message("db", None))),
        FieldViolation::Invalid {
            field: "uuid".to_owned(),
            description: "invalid bytes length: expected 16, found 120".to_owned(),
        },
    );
}

type LoadResult = Result<Rules, Error<String, String, String>>;

fn load(fetched: Result<Vec<u8>, String>) -> LoadResult {
    Rules::load(
        fetched,
        |bytes: Vec<u8>| {
            if bytes.len() < 2 {
                Err("too short".to_owned())
            } else if bytes[0] == 0 {
                Ok(PersistedRulesMessage { uuid: bytes, rules: None })
            } else {
                let rules = Some(message("db", Some(u32::from(bytes[0]))));
                Ok(PersistedRulesMessage { uuid: bytes, rules })
            }
        },
        convert,
    )
}

#[test]
fn loading() {
    let rules = load(Ok(vec![9; 16])).unwrap();
    assert_eq!(rules.uuid(), Uuid { value: 0x09090909_09090909_09090909_09090909 });
    assert_eq!(rules.rules().rest, 9);

    match load(Err("gone".to_owned())) {
        Err(Error::RulesFetch { source }) => assert_eq!(source, "gone"),
        other => panic!("{:?}", other),
    }
    match load(Ok(vec![])) {
        Err(Error::Deserialization { source }) => assert_eq!(source, "too short"),
        other => panic!("{:?}", other),
    }
    match load(Ok(vec![0, 0])) {
        Err(Error::ConvertingRules { source }) => {
            assert_eq!(source, FieldViolation::required("rules"))
        }
        other => panic!("{:?}", other),
    }
}

#[test]
fn persisting() {
    let rules = persisted();
    let result: Result<Vec<u8>, Error<String, String, String>> =
        rules.persist(|message: PersistedRulesMessage<&Message>| Ok(message.uuid));
    assert_eq!(result.unwrap().len(), 16);
    let result: Result<Vec<u8>, Error<String, String, String>> =
        rules.persist(|_: PersistedRulesMessage<&Message>| Err("full".to_owned()));
    match result {
        Err(Error::Serialization { source }) => assert_eq!(source, "full"),
        other => panic!("{:?}", other),
    }
    let stored: Result<(), Error<String, String, String>> = rules.persisted(Ok(()));
    assert!(stored.is_ok());
    let stored: Result<(), Error<String, String, String>> =
        rules.persisted(Err("no space".to_owned()));
    match stored {
        Err(Error::ObjectStore { db_name, source }) => {
            assert_eq!(db_name, "db");
            assert_eq!(source, "no space");
        }
        other => panic!("{:?}", other),
    }
}

/// Writes the identifier, then the setting, which is zero if it is not set, and then the name.
fn encode(message: PersistedRulesMessage<&Message>) -> Result<Vec<u8>, String> {
    let rules = message.rules.ok_or("no rules")?;
    let rest = rules.rest.unwrap_or(0).to_be_bytes();
    Ok([message.uuid.as_slice(), rest.as_slice(), rules.name.as_bytes()].concat())
}

/// Reads what `encode` writes.
fn decode(bytes: Vec<u8>) -> Result<PersistedRulesMessage<Message>, String> {
    let name = std::str::from_utf8(&bytes[20..]).map_err(|e| e.to_string())?;
    let rest = u32::from_be_bytes([bytes[16], bytes[17], bytes[18], bytes[19]]);
    Ok(PersistedRulesMessage {
        uuid: bytes[..16].to_vec(),
        rules: Some(message(name, Some(rest).filter(|rest| *rest != 0))),
    })
}

#[test]
fn rules_are_read_back_from_the_bytes_that_were_written() {
    for rest in [None, Some(3)] {
        let provided = ProvidedDatabaseRules::new_rules(message("db", rest), convert).unwrap();
        let rules = PersistedDatabaseRules::new(ID, provided);
        let written: Result<Vec<u8>, Error<String, String, String>> = rules.persist(encode);
        let loaded: LoadResult = Rules::load(Ok(written.unwrap()), decode, convert);
        let loaded = loaded.unwrap();
        assert_eq!(loaded.uuid(), ID);
        assert_eq!(loaded.original().name, "db");
        assert_eq!(loaded.original().rest, rest);
        assert_eq!(loaded.rules().name, rules.rules().name);
        assert_eq!(loaded.rules().rest, rules.rules().rest);
    }
}

#[test]
fn rules_provided_again_make_the_same_configuration() {
    let written: Result<Vec<u8>, Error<String, String, String>> = persisted().persist(encode);
    let loaded: LoadResult = Rules::load(Ok(written.unwrap()), decode, convert);
    let loaded = loaded.unwrap();
    let again = ProvidedDatabaseRules::new_rules(message("db", None), convert).unwrap();
    assert_eq!(loaded.rules().rest, again.rules().rest);
    assert_eq!(loaded.rules().name, again.rules().name);
}

#[test]
fn clones_of_rules() {
    let rules = persisted().clone();
    assert_eq!(rules.uuid(), ID);
    let provided = ProvidedDatabaseRules::clone(&rules.provided_rules());
    assert_eq!(provided.db_name(), "db");
    assert_eq!(provided.original().rest, None);
    assert_eq!(provided.rules().rest, 7);
}

#[test]
fn rules_error_messages() {
    let error: Error<u8, u8, u8> = Error::ObjectStore { db_name: "db".to_owned(), source: 1 };
    assert_eq!(error.message("full"), "Error saving rules for db: full");
    let error: Error<u8, u8, u8> = Error::Deserialization { source: 1 };
    assert_eq!(error.message("x"), "error deserializing database rules: x");
    let error: Error<u8, u8, u8> = Error::Serialization { source: 1 };
    assert_eq!(error.message("x"), "error serializing database rules: x");
    let error: Error<u8, u8, u8> = Error::RulesFetch { source: 1 };
    assert_eq!(error.message("x"), "error fetching rules: x");
    let error: Error<u8, u8, u8> =
        Error::ConvertingRules { source: FieldViolation::required("rules") };
    assert_eq!(error.message("x"), "error converting grpc to database rules: x");
}
