use der::mcf::{validate, validate_id, Error, Field, McfHash, McfHashRef, DELIMITER};

const SHA512_HASH: &str = "$6$rounds=100000$exn6tVc2j/MZD8uG$BI1Xh8qQSK9J4m14uwy7abn.ctj/TIAzlaVCto0MQrOFIeTXsc1iwzH16XEWo/a7c7Y9eVJvufVzYAs4EsPOy0";

fn texts(fields: Vec<Field<'_>>) -> Vec<String> {
    fields
        .into_iter()
        .map(|field| field.as_str().to_owned())
        .collect()
}

#[test]
fn mcf_valid_hashes() {
    for s in [
        "$1$salt$hash",
        "$6",
        "$2b$12$R9h/cIPz0gi.URNNX3kh2OPST9/PgBkqquzi.Ss7KIUgO2t0jWMUW",
        "$argon2-id$v=19$m=65536,t=2,p=1",
        "$y$j9T",
        SHA512_HASH,
    ] {
        assert_eq!(validate(s), Ok(()));
        assert_eq!(McfHashRef::new(s).unwrap().as_str(), s);
        assert_eq!(McfHash::new(s).unwrap().as_str(), s);
    }
}

#[test]
fn mcf_invalid_hashes() {
    for s in [
        "",
        "$",
        "6$salt",
        "$6$",
        "$6$salt$",
        "$$salt",
        "$6$$hash",
        "$-6$salt",
        "$6-$salt",
        "$A$salt",
        "$6$sa lt",
        "$6$sa!t",
        "$6$sält",
        "$$",
    ] {
        assert_eq!(validate(s), Err(Error {}));
        assert!(McfHashRef::new(s).is_err());
        assert!(McfHash::new(s).is_err());
    }
}

#[test]
fn mcf_identifiers() {
    for id in ["6", "2b", "argon2-id", "a-b-c", "0", "sha512"] {
        assert_eq!(validate_id(id), Ok(()));
    }
    for id in ["", "-", "-a", "a-", "A", "a b", "a$b", "ä", "a_b"] {
        assert_eq!(validate_id(id), Err(Error {}));
    }
}

#[test]
fn mcf_fields() {
    assert!(Field::new("rounds=100000").is_ok());
    assert!(Field::new("A.z/0+9=,-").is_ok());
    assert_eq!(Field::new("abc").unwrap().as_str(), "abc");
    assert!(Field::new("").is_err());
    assert!(Field::new("a$b").is_err());
    assert!(Field::new("a b").is_err());
    assert!(Field::new("a:b").is_err());
    assert_eq!(Field::new("abc").unwrap().validate(), Ok(()));
}

#[test]
fn mcf_id_and_fields() {
    let hash = McfHashRef::new(SHA512_HASH).unwrap();
    assert_eq!(hash.id(), "6");
    assert_eq!(
        texts(hash.fields()),
        vec![
            "rounds=100000",
            "exn6tVc2j/MZD8uG",
            "BI1Xh8qQSK9J4m14uwy7abn.ctj/TIAzlaVCto0MQrOFIeTXsc1iwzH16XEWo/a7c7Y9eVJvufVzYAs4EsPOy0"
        ]
    );
    let hash = McfHashRef::new("$2b").unwrap();
    assert_eq!(hash.id(), "2b");
    assert!(hash.fields().is_empty());

    let owned = McfHash::new("$1$salt$hash").unwrap();
    assert_eq!(owned.id(), "1");
    assert_eq!(texts(owned.fields()), vec!["salt", "hash"]);
    assert_eq!(owned.as_mcf_hash_ref().as_str(), "$1$salt$hash");
}

#[test]
fn mcf_from_id_and_push_field() {
    let mut hash = McfHash::from_id("6").unwrap();
    assert_eq!(hash.as_str(), "$6");
    assert_eq!(hash.id(), "6");
    assert!(hash.fields().is_empty());

    hash.push_field(Field::new("rounds=100000").unwrap());
    assert_eq!(hash.as_str(), "$6$rounds=100000");
    hash.push_field(Field::new("exn6tVc2j/MZD8uG").unwrap());
    assert_eq!(hash.as_str(), "$6$rounds=100000$exn6tVc2j/MZD8uG");
    assert_eq!(hash.id(), "6");
    assert_eq!(texts(hash.fields()), vec!["rounds=100000", "exn6tVc2j/MZD8uG"]);
    assert_eq!(validate(hash.as_str()), Ok(()));

    assert!(McfHash::from_id("").is_err());
    assert!(McfHash::from_id("-x").is_err());
    assert!(McfHash::from_id("-a").is_err());
    assert!(McfHash::from_id("a-").is_err());
    assert!(McfHash::from_id("A").is_err());
    assert!(McfHash::from_id("a$b").is_err());
    let hash = McfHash::from_id("argon2-id").unwrap();
    assert_eq!(hash.as_str(), "$argon2-id");
    assert_eq!(hash.id(), "argon2-id");
    assert_eq!(DELIMITER, '$');
}
