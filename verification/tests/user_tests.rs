use alpine_pay::error::ContractError;
use alpine_pay::msg::{
    Env, ExecuteMsg, InstantiateMsg, MessageInfo, QueryMsg, QueryResponse,
};
use alpine_pay::state::{AlpineContract, AlpineUser};
use cosmwasm_std::testing::{mock_env, MockApi};
use cosmwasm_std::Api;

const ADDR_1: &str = "osmo1409ep5zmpxyrh5jpxc8tcw4c0wppkvlqpya9jh";
const ADDR_2: &str = "osmo1ysehn88p24d7769j4vj07hyndkjj7pccz3j3c9";
const ADDR_3: &str = "osmo1hrm44y69kzdjqq2tn6hh9cq3tzmfsa9rfgv7d9";

fn valid(address: &str) -> bool {
    MockApi::default().addr_validate(address).is_ok()
}

fn env() -> Env {
    Env { time: mock_env().block.time.nanos() }
}

fn info(sender: &str) -> MessageInfo {
    MessageInfo { sender: String::from(sender), funds: Vec::new() }
}

fn user(address: &str, username: Option<String>) -> AlpineUser {
    AlpineUser::new(valid(address), String::from(address), username).unwrap()
}

fn setup_contract() -> AlpineContract {
    let mut contract = AlpineContract::default();
    let res = contract.instantiate(env(), info("creator"), InstantiateMsg {}).unwrap();
    assert_eq!(0, res.messages.len());
    contract
}

fn register(contract: &mut AlpineContract, test_user: AlpineUser, username: &str) -> Result<alpine_pay::msg::Response, ContractError> {
    let caller = info(test_user.address.as_str());
    let msg = ExecuteMsg::RegisterUser { user: test_user, username: String::from(username) };
    contract.execute(valid(caller.sender.as_str()), env(), caller, msg)
}

fn invalid_username(username: &str, reason: &str) -> ContractError {
    ContractError::InvalidUsername { username: String::from(username), reason: String::from(reason) }
}

#[test]
fn create_user_invalid_addr() {
    let test_address = String::from("");
    let create_test_user =
        AlpineUser::new(valid(test_address.as_str()), test_address.clone(), None).unwrap_err();
    assert_eq!(create_test_user, ContractError::InvalidWalletAddress { address: test_address });
}

#[test]
fn create_user_anonymous_success() {
    let test_addr = String::from(ADDR_1);
    let test_user = AlpineUser::new(valid(ADDR_1), test_addr.clone(), None).unwrap();
    assert_eq!(test_user.address, test_addr);
    assert_eq!(test_user.username, "");
}

#[test]
fn create_user_with_name_success() {
    let test_addr = String::from(ADDR_1);
    let test_username = String::from("this-Is-A-Valid_Username1234");
    let test_user =
        AlpineUser::new(valid(ADDR_1), test_addr.clone(), Some(test_username.clone())).unwrap();
    assert_eq!(test_user.address, test_addr);
    assert_eq!(test_user.username, test_username);
}

#[test]
fn save_username_empty_username() {
    let mut contract = setup_contract();
    let res = register(&mut contract, user(ADDR_1, None), "").unwrap_err();
    assert_eq!(res, ContractError::EmptyUsername {});
}

#[test]
fn save_username_too_long() {
    let mut contract = setup_contract();
    let username = "ThisUsernameIsTooLongAndWillCauseAnError";
    let res = register(&mut contract, user(ADDR_1, None), username).unwrap_err();
    assert_eq!(res, invalid_username(username, "must be shorter than 33 characters"));
}

#[test]
fn save_username_unsupported_characters_backslash() {
    let mut contract = setup_contract();
    let username = "\\backslashesareforbidden/";
    let res = register(&mut contract, user(ADDR_1, None), username).unwrap_err();
    assert_eq!(
        res,
        invalid_username(username, "only alphanumeric, underscores, and dashes are allowed")
    );
}

#[test]
fn save_username_unsupported_characters_spaces() {
    let mut contract = setup_contract();
    let username = "spaces are not supported";
    let res = register(&mut contract, user(ADDR_1, None), username).unwrap_err();
    assert_eq!(
        res,
        invalid_username(username, "only alphanumeric, underscores, and dashes are allowed")
    );
}

#[test]
fn save_username_unsupported_characters_encoded() {
    let mut contract = setup_contract();
    let username = "Nice%20Try";
    let res = register(&mut contract, user(ADDR_1, None), username).unwrap_err();
    assert_eq!(
        res,
        invalid_username(username, "only alphanumeric, underscores, and dashes are allowed")
    );
}

#[test]
fn save_username_unsupported_characters_encoded_greekletter() {
    let mut contract = setup_contract();
    let username = "\u{ce}\u{a3}";
    let res = register(&mut contract, user(ADDR_1, None), username).unwrap_err();
    assert_eq!(
        res,
        invalid_username(username, "only alphanumeric, underscores, and dashes are allowed")
    );
}

fn availability(contract: &AlpineContract, username: &str) -> bool {
    let msg = QueryMsg::IsUsernameAvailable { username: String::from(username) };
    match contract.query(true, env(), msg).unwrap() {
        QueryResponse::UsernameAvailable(found) => found.is_available,
        other => panic!("unexpected answer {:?}", other),
    }
}

#[test]
fn is_username_available_true() {
    let mut contract = setup_contract();
    contract.usernames.save(String::from("alpine_user_1"), &user(ADDR_1, None));
    assert_eq!(availability(&contract, "alpine_user_2"), true);
}

#[test]
fn is_username_available_false() {
    let mut contract = setup_contract();
    contract.usernames.save(String::from("alpine_user_1"), &user(ADDR_1, None));
    assert_eq!(availability(&contract, "alpine_user_1"), false);
}

#[test]
fn is_username_available_false_case_insensitive() {
    let mut contract = setup_contract();
    contract.usernames.save(String::from("alpine_user_1"), &user(ADDR_1, None));
    assert_eq!(availability(&contract, "ALPINE_USER_1"), false);
}

#[test]
fn save_username_unavailable() {
    let mut contract = setup_contract();
    contract.usernames.save(String::from("alpine_user_1"), &user(ADDR_1, None));
    let username = String::from("alpine_user_1");
    let res = register(&mut contract, user(ADDR_2, None), username.as_str()).unwrap_err();
    assert_eq!(res, ContractError::UsernameNotAvailable { username });
}

#[test]
fn save_username_success() {
    let mut contract = setup_contract();
    let res = register(&mut contract, user(ADDR_1, None), "alpine_user_1").unwrap();
    assert_eq!(res.attributes[0].value, "alpine_user_1");
}

fn all_users(contract: &AlpineContract) -> Vec<AlpineUser> {
    match contract.query(true, env(), QueryMsg::GetAllUsers {}).unwrap() {
        QueryResponse::Users(found) => found.users,
        other => panic!("unexpected answer {:?}", other),
    }
}

#[test]
fn get_usernames() {
    let mut contract = setup_contract();
    contract.usernames.save(String::from("alpine_user_1"), &user(ADDR_1, None));
    contract.usernames.save(String::from("alpine_user_2"), &user(ADDR_2, None));
    contract.usernames.save(String::from("alpine_user_3"), &user(ADDR_3, None));
    assert_eq!(all_users(&contract).len(), 3)
}

#[test]
fn change_username_from_anonymous() {
    let mut contract = setup_contract();
    let mut test_user = user(ADDR_1, None);
    register(&mut contract, test_user.clone(), "Anonymous").unwrap();

    test_user.username = String::from("Anonymous");
    let res = register(&mut contract, test_user, "aline_user_1").unwrap_err();
    assert_eq!(res.to_string(), "Address Already Registered")
}

fn user_at(contract: &AlpineContract, address: &str) -> AlpineUser {
    let msg = QueryMsg::GetUserByAddr { address: String::from(address) };
    match contract.query(valid(address), env(), msg).unwrap() {
        QueryResponse::User(found) => found.user,
        other => panic!("unexpected answer {:?}", other),
    }
}

fn user_named(contract: &AlpineContract, username: &str) -> AlpineUser {
    let msg = QueryMsg::GetUserByName { username: String::from(username) };
    match contract.query(true, env(), msg).unwrap() {
        QueryResponse::User(found) => found.user,
        other => panic!("unexpected answer {:?}", other),
    }
}

#[test]
fn get_user_by_bad_address() {
    let mut contract = setup_contract();
    let test_user = user(ADDR_1, Some(String::from("alpine_user_1")));
    contract.addresses.save(String::from(ADDR_1), &test_user);

    let junk_user = user("somejunk", Some(String::from("")));
    assert_eq!(user_at(&contract, junk_user.address.as_str()), junk_user);
}

#[test]
fn get_user_by_good_address() {
    let mut contract = setup_contract();
    let test_user = user(ADDR_1, Some(String::from("alpine_user_1")));
    contract.addresses.save(String::from(ADDR_1), &test_user);
    assert_eq!(user_at(&contract, ADDR_1), test_user);
}

#[test]
fn get_user_by_nonexistent_username() {
    let contract = setup_contract();
    let empty_user = AlpineUser::empty();
    assert_eq!(user_named(&contract, "alpine_user_1"), empty_user);
}

#[test]
fn get_user_by_good_username() {
    let mut contract = setup_contract();
    let test_user = user(ADDR_1, Some(String::from("alpine_user_1")));
    contract.usernames.save(String::from("alpine_user_1"), &test_user);
    assert_eq!(user_named(&contract, "alpine_user_1"), test_user);
}
