use alpine_pay::error::ContractError;
use alpine_pay::execute::validate_username;
use alpine_pay::msg::{Env, ExecuteMsg, MessageInfo, MigrateMsg};
use alpine_pay::state::{AlpineContract, AlpineUser, ContractVersion};
use alpine_pay::table::UserTable;
use alpine_pay::text::{eq_ignoring_case, place_of, Place};
use alpine_pay::traits::{DonationExecute, DonationQuery};

const X: &str = "osmo1409ep5zmpxyrh5jpxc8tcw4c0wppkvlqpya9jh";
const Y: &str = "osmo1ysehn88p24d7769j4vj07hyndkjj7pccz3j3c9";

fn at(time: u64) -> Env {
    Env { time }
}

fn anonymous(address: &str) -> AlpineUser {
    AlpineUser::new(true, String::from(address), None).unwrap()
}

fn named(address: &str, username: &str) -> AlpineUser {
    AlpineUser { username: String::from(username), address: String::from(address) }
}

fn join(contract: &mut AlpineContract, address: &str, username: &str) -> Result<String, ContractError> {
    let res = contract.register_user(true, at(0), anonymous(address), String::from(username))?;
    Ok(res.attributes[0].value.clone())
}

#[test]
fn registered_name_resolves_in_any_case() {
    let mut contract = AlpineContract::default();
    assert_eq!(join(&mut contract, X, "Alpine_User"), Ok(String::from("Alpine_User")));
    for asked in ["Alpine_User", "ALPINE_USER", "alpine_user", "aLPINE_uSER"] {
        let found = contract.find_alpine_username(String::from(asked)).unwrap();
        assert_eq!(found, named(X, "Alpine_User"));
    }
    assert_eq!(contract.get_user_by_address(String::from(X)), Ok(named(X, "Alpine_User")));
}

#[test]
fn case_variant_of_registered_name_is_refused() {
    let mut contract = AlpineContract::default();
    join(&mut contract, X, "alpine_user_1").unwrap();
    assert_eq!(
        join(&mut contract, Y, "ALPINE_USER_1"),
        Err(ContractError::UsernameNotAvailable { username: String::from("ALPINE_USER_1") })
    );
    assert_eq!(contract.get_all_users().users, vec![named(X, "alpine_user_1")]);
}

#[test]
fn registered_name_is_taken_in_upper_case() {
    let mut contract = AlpineContract::default();
    let user = AlpineUser::new(true, String::from(X), Some(String::from(""))).unwrap();
    let info = MessageInfo { sender: String::from(X), funds: Vec::new() };
    let msg = ExecuteMsg::RegisterUser { user, username: String::from("alpine_user_1") };
    contract.execute(true, at(0), info, msg).unwrap();
    assert_eq!(
        contract.is_username_available(String::from("ALPINE_USER_1")).is_available,
        false
    );
    assert_eq!(contract.contains_username(String::from("ALPINE_USER_1")), true);
}

#[test]
fn same_name_for_second_address_is_refused() {
    let mut contract = AlpineContract::default();
    join(&mut contract, X, "alpine_user_1").unwrap();
    assert_eq!(
        join(&mut contract, Y, "alpine_user_1"),
        Err(ContractError::UsernameNotAvailable { username: String::from("alpine_user_1") })
    );
}

#[test]
fn unknown_address_gives_anonymous_user() {
    let contract = AlpineContract::default();
    let found = contract.get_user_by_addr(true, String::from(X)).user;
    assert_eq!(found, named(X, ""));
}

#[test]
fn registration_rules_come_in_order() {
    let mut contract = AlpineContract::default();
    join(&mut contract, X, "first").unwrap();
    // the rules on the name come before everything else
    assert_eq!(
        contract.register_user(false, at(0), named(X, "first"), String::new()),
        Err(ContractError::EmptyUsername {})
    );
    // a participant who has a name already
    assert_eq!(
        contract.register_user(true, at(0), named(Y, "other"), String::from("second")),
        Err(ContractError::UserAlreadyExists {})
    );
    // an address that has an entry already
    assert_eq!(
        contract.register_user(true, at(0), named(X, ""), String::from("second")),
        Err(ContractError::UserNotFound { user: String::from(X) })
    );
    // an address that the validator refused
    assert_eq!(
        contract.register_user(false, at(0), named(Y, ""), String::from("first")),
        Err(ContractError::InvalidWalletAddress { address: String::from(Y) })
    );
    // an empty address, whatever the validator said
    assert_eq!(
        contract.register_user(true, at(0), named("", ""), String::from("second")),
        Err(ContractError::InvalidWalletAddress { address: String::new() })
    );
    // a name that is taken
    assert_eq!(
        contract.register_user(true, at(0), named(Y, ""), String::from("FIRST")),
        Err(ContractError::UsernameNotAvailable { username: String::from("FIRST") })
    );
    assert_eq!(contract.get_all_users().users, vec![named(X, "first")]);
}

#[test]
fn register_through_execute_checks_the_caller() {
    let mut contract = AlpineContract::default();
    let info = MessageInfo { sender: String::from(X), funds: Vec::new() };
    let msg = ExecuteMsg::RegisterUser { user: named(Y, ""), username: String::from("someone") };
    assert_eq!(
        contract.execute(true, at(0), info, msg),
        Err(ContractError::InvalidWalletAddress { address: String::from(Y) })
    );
    assert_eq!(contract.get_all_users().users.len(), 0);
}

#[test]
fn username_length_is_counted_in_characters() {
    let longest = "a".repeat(32);
    assert_eq!(validate_username(longest.clone()), Ok(longest));
    let too_long = "a".repeat(33);
    assert_eq!(
        validate_username(too_long.clone()),
        Err(ContractError::InvalidUsername {
            username: too_long,
            reason: String::from("must be shorter than 33 characters"),
        })
    );
    // 20 characters in 40 bytes: not too long, refused for its characters
    let accented = "\u{e9}".repeat(20);
    assert_eq!(
        validate_username(accented.clone()),
        Err(ContractError::InvalidUsername {
            username: accented,
            reason: String::from("only alphanumeric, underscores, and dashes are allowed"),
        })
    );
    // a digit of another script is no ASCII digit
    let arabic_digit = String::from("user\u{661}");
    assert_eq!(
        validate_username(arabic_digit.clone()),
        Err(ContractError::InvalidUsername {
            username: arabic_digit,
            reason: String::from("only alphanumeric, underscores, and dashes are allowed"),
        })
    );
    let every_kind = String::from("aZ09-_");
    assert_eq!(validate_username(every_kind.clone()), Ok(every_kind));
}

#[test]
fn lookup_by_name_takes_the_greatest_matching_key() {
    let mut contract = AlpineContract::default();
    contract.usernames.save(String::from("abc"), &named(X, "abc"));
    contract.usernames.save(String::from("ABC"), &named(Y, "ABC"));
    contract.usernames.save(String::from("zzz"), &named(Y, "zzz"));
    assert_eq!(contract.find_alpine_username(String::from("Abc")), Ok(named(X, "abc")));
    assert_eq!(
        contract.find_alpine_username(String::from("abd")),
        Err(ContractError::UserNotFound { user: String::from("abd") })
    );
    assert_eq!(contract.get_user_by_name(String::from("abd")).user, AlpineUser::empty());
}

#[test]
fn case_is_ignored_beyond_ascii() {
    assert!(eq_ignoring_case("\u{c4}B", "\u{e4}b"));
    assert!(!eq_ignoring_case("\u{c4}B", "ab"));
    let mut contract = AlpineContract::default();
    contract.usernames.save(String::from("\u{c4}rger"), &named(X, "\u{c4}rger"));
    assert!(contract.contains_username(String::from("\u{e4}RGER")));
    assert!(!contract.contains_username(String::from("arger")));
}

#[test]
fn case_variant_with_a_forbidden_character_is_refused_for_the_character() {
    // the Kelvin sign is "k" in lower case, and no ASCII letter
    assert!(eq_ignoring_case("k", "\u{212a}"));
    let mut contract = AlpineContract::default();
    join(&mut contract, X, "k").unwrap();
    assert_eq!(
        join(&mut contract, Y, "\u{212a}"),
        Err(ContractError::InvalidUsername {
            username: String::from("\u{212a}"),
            reason: String::from("only alphanumeric, underscores, and dashes are allowed"),
        })
    );
    assert!(contract.contains_username(String::from("\u{212a}")));
}

#[test]
fn texts_are_ordered_by_their_characters() {
    assert_eq!(place_of("", ""), Place::Same);
    assert_eq!(place_of("", "a"), Place::Before);
    assert_eq!(place_of("a", ""), Place::After);
    assert_eq!(place_of("abc", "abd"), Place::Before);
    assert_eq!(place_of("abd", "abc"), Place::After);
    assert_eq!(place_of("ab", "abc"), Place::Before);
    assert_eq!(place_of("Z", "a"), Place::Before);
    assert_eq!(place_of("z", "\u{e9}"), Place::Before);
    assert_eq!(place_of("abc", "abc"), Place::Same);
}

#[test]
fn users_are_listed_by_ascending_username() {
    let mut contract = AlpineContract::default();
    contract.usernames.save(String::from("b"), &named(X, "b"));
    contract.usernames.save(String::from("a"), &named(Y, "a"));
    contract.usernames.save(String::from("C"), &named(X, "C"));
    let listed: Vec<String> =
        contract.get_all_users().users.into_iter().map(|u| u.username).collect();
    assert_eq!(listed, vec![String::from("C"), String::from("a"), String::from("b")]);
}

#[test]
fn table_keeps_one_entry_for_a_key() {
    let mut table = UserTable::new();
    assert_eq!(table.len(), 0);
    assert_eq!(table.may_load("k"), None);
    table.save(String::from("k"), &named(X, "one"));
    table.save(String::from("j"), &named(X, "zero"));
    table.save(String::from("k"), &named(Y, "two"));
    assert_eq!(table.len(), 2);
    assert_eq!(table.may_load("k"), Some(named(Y, "two")));
    assert_eq!(table.key(0), "j");
    assert_eq!(table.user(1), &named(Y, "two"));
}

#[test]
fn new_user_needs_a_valid_address_that_is_not_empty() {
    assert_eq!(
        AlpineUser::new(false, String::from(X), None),
        Err(ContractError::InvalidWalletAddress { address: String::from(X) })
    );
    assert_eq!(
        AlpineUser::new(true, String::new(), Some(String::from("n"))),
        Err(ContractError::InvalidWalletAddress { address: String::new() })
    );
    assert_eq!(AlpineUser::new(true, String::from(X), Some(String::from("n"))), Ok(named(X, "n")));
    assert_eq!(AlpineUser::empty(), named("", ""));
}

#[test]
fn migration_asks_for_the_stamp_of_this_library() {
    let mut contract = AlpineContract::default();
    assert_eq!(
        contract.migrate(at(0), MigrateMsg {}),
        Err(ContractError::Std { msg: String::from("contract version not found") })
    );
    contract.version = Some(ContractVersion {
        contract: String::from("crates.io:something-else"),
        version: String::from("9.9.9"),
    });
    assert_eq!(
        contract.migrate(at(0), MigrateMsg {}),
        Err(ContractError::IncorrectContractName {
            contract_name: String::from("crates.io:alpine-pay"),
        })
    );
    assert_eq!(contract.version.as_ref().unwrap().version, "9.9.9");
}

#[test]
fn error_messages() {
    let quote = |e: ContractError| e.to_string();
    assert_eq!(quote(ContractError::Std { msg: String::from("broken") }), "broken");
    assert_eq!(
        quote(ContractError::IncorrectContractName { contract_name: String::from("n") }),
        "Incorrect Contract Name (\"n\")"
    );
    assert_eq!(quote(ContractError::Unauthorized {}), "Unauthorized");
    assert_eq!(
        quote(ContractError::InvalidWalletAddress { address: String::from("a\"b") }),
        "Invalid Wallet Address (\"a\\\"b\")"
    );
    assert_eq!(quote(ContractError::UserAlreadyExists {}), "Address Already Registered");
    assert_eq!(
        quote(ContractError::UsernameNotAvailable { username: String::from("alpine_user_1") }),
        "Username Taken (\"alpine_user_1\")"
    );
    assert_eq!(
        quote(ContractError::UserNotFound { user: String::from("u") }),
        "User Not Found (\"u\")"
    );
    assert_eq!(quote(ContractError::EmptyUsername {}), "Username cannot be empty");
    assert_eq!(
        quote(ContractError::InvalidUsername {
            username: String::from("a b"),
            reason: String::from("why"),
        }),
        "Invalid username (\"a b\") - \"why\""
    );
    assert_eq!(quote(ContractError::NoDonation {}), "You must send a donation");
    assert_eq!(quote(ContractError::DonationMessageTooLong {}), "Donation message is too long");
}
