use alpine_pay::error::ContractError;
use alpine_pay::msg::{
    Env, ExecuteMsg, InstantiateMsg, MessageInfo, MigrateMsg, MultiDonationResponse, QueryMsg,
    QueryResponse, Response,
};
use alpine_pay::state::{AlpineContract, AlpineUser, Coin};
use alpine_pay::traits::DonationQuery;
use cosmwasm_std::testing::{mock_env, MockApi};
use cosmwasm_std::Api;

const ADDR_A: &str = "osmo1409ep5zmpxyrh5jpxc8tcw4c0wppkvlqpya9jh";
const ADDR_B: &str = "osmo1ayjl4cm8e2nrnhstx92cr6uuljnumjxgkncs7x";
const ADDR_C: &str = "osmo1hrm44y69kzdjqq2tn6hh9cq3tzmfsa9rfgv7d9";
const ADDR_D: &str = "osmo1ysehn88p24d7769j4vj07hyndkjj7pccz3j3c9";

fn address_ok(address: &str) -> bool {
    MockApi::default().addr_validate(address).is_ok()
}

fn test_env() -> Env {
    Env { time: mock_env().block.time.nanos() }
}

fn coins(amount: u128, denom: &str) -> Vec<Coin> {
    vec![Coin { denom: String::from(denom), amount }]
}

fn mock_info(sender: &str, funds: &[Coin]) -> MessageInfo {
    MessageInfo { sender: String::from(sender), funds: funds.to_vec() }
}

fn new_user(address: &str, username: &str) -> AlpineUser {
    AlpineUser::new(address_ok(address), String::from(address), Some(String::from(username)))
        .unwrap()
}

fn setup_contract() -> AlpineContract {
    let mut contract = AlpineContract::default();
    let res = contract.instantiate(test_env(), mock_info("creator", &[]), InstantiateMsg {}).unwrap();
    assert_eq!(0, res.messages.len());
    contract
}

fn four_users(contract: &mut AlpineContract) -> (AlpineUser, AlpineUser, AlpineUser, AlpineUser) {
    let a = new_user(ADDR_A, "USER_A");
    let b = new_user(ADDR_B, "USER_B");
    let c = new_user(ADDR_C, "USER_C");
    let d = new_user(ADDR_D, "USER_D");
    contract.usernames.save(a.username.clone(), &a);
    contract.usernames.save(b.username.clone(), &b);
    contract.usernames.save(c.username.clone(), &c);
    contract.usernames.save(d.username.clone(), &d);
    (a, b, c, d)
}

fn donate(
    contract: &mut AlpineContract,
    info: &MessageInfo,
    sender: &AlpineUser,
    recipient: &str,
    message: String,
) -> Result<Response, ContractError> {
    let msg = ExecuteMsg::SendDonation {
        message,
        sender: sender.username.clone(),
        recipient: String::from(recipient),
    };
    contract.execute(address_ok(info.sender.as_str()), test_env(), info.clone(), msg)
}

fn donations(contract: &AlpineContract, msg: QueryMsg) -> MultiDonationResponse {
    match contract.query(true, test_env(), msg).unwrap() {
        QueryResponse::Donations(found) => found,
        other => panic!("unexpected answer {:?}", other),
    }
}

#[test]
fn proper_instantiation() {
    let contract = setup_contract();
    let donation_count = contract.get_donation_count();
    assert_eq!(0, donation_count.count);
}

#[test]
fn send_donation_to_nonexistent_recipient() {
    let donation_message = String::from("henlo :)");
    let alpine_user_a = new_user(ADDR_A, "USER_A");
    let invalid_user = new_user(ADDR_C, "nonexistent_user");

    let info = mock_info(alpine_user_a.address.as_str(), &coins(1000, "earth"));
    let mut contract = setup_contract();
    contract.usernames.save(alpine_user_a.username.clone(), &alpine_user_a);

    let res = donate(
        &mut contract,
        &info,
        &alpine_user_a,
        invalid_user.username.as_str(),
        donation_message,
    )
    .unwrap_err();
    assert_eq!(res, ContractError::UserNotFound { user: invalid_user.username });
}

#[test]
fn send_no_dono() {
    let donation_message = String::from("henlo :)");
    let alpine_user_a = new_user(ADDR_A, "USER_A");
    let alpine_user_b = new_user(ADDR_B, "USER_B");
    let info = MessageInfo {
        sender: MockApi::default()
            .addr_validate(alpine_user_a.address.as_str())
            .unwrap()
            .into_string(),
        funds: Vec::new(),
    };

    let mut contract = setup_contract();
    contract.usernames.save(alpine_user_a.username.clone(), &alpine_user_a);
    contract.usernames.save(alpine_user_b.username.clone(), &alpine_user_b);

    let res = donate(&mut contract, &info, &alpine_user_a, "USER_B", donation_message).unwrap_err();
    assert_eq!(res, ContractError::NoDonation {});
}

#[test]
fn send_no_dono_amount() {
    let donation_message = String::from("henlo :)");
    let alpine_user_a = new_user(ADDR_A, "USER_A");
    let alpine_user_b = new_user(ADDR_B, "USER_B");
    let info = mock_info(alpine_user_a.address.as_str(), &coins(0, "earth"));
    let mut contract = setup_contract();
    contract.usernames.save(alpine_user_a.username.clone(), &alpine_user_a);
    contract.usernames.save(alpine_user_b.username.clone(), &alpine_user_b);

    let res = donate(&mut contract, &info, &alpine_user_a, "USER_B", donation_message).unwrap_err();
    assert_eq!(res, ContractError::NoDonation {});
}

#[test]
fn send_too_long_message() {
    let donation_message: String = String::from("This message is really long. In fact, it's actually too long for you to use it in our app.\
                    We shouldn't allow users to send a message that's this long. There's no reason to send a message that's this long. If I was a \
                    content creator and I was constantly having people send me giant messages like this for like $3, I would not only hate this app, \
                    but I would also begin to dislike my fans.");
    let alpine_user_a = new_user(ADDR_A, "USER_A");
    let alpine_user_b = new_user(ADDR_B, "USER_B");
    let info = mock_info(alpine_user_a.address.as_str(), &coins(1000, "earth"));
    let mut contract = setup_contract();
    contract.usernames.save(alpine_user_a.username.clone(), &alpine_user_a);
    contract.usernames.save(alpine_user_b.username.clone(), &alpine_user_b);

    let res = donate(&mut contract, &info, &alpine_user_a, "USER_B", donation_message).unwrap_err();
    assert_eq!(res, ContractError::DonationMessageTooLong {});
}

#[test]
fn get_multiple_sent_donations() {
    let donation_message = String::from("henlo :)");
    let mut contract = setup_contract();
    let (a, _b, _c, _d) = four_users(&mut contract);
    let info = mock_info(a.address.as_str(), &coins(1000, "earth"));

    let _res = donate(&mut contract, &info, &a, "USER_B", donation_message.clone());
    donate(&mut contract, &info, &a, "USER_C", donation_message.clone()).unwrap();
    donate(&mut contract, &info, &a, "USER_D", donation_message.clone()).unwrap();

    let msg = QueryMsg::GetSentDonations { sender: a.username.clone() };
    let sent_donations = donations(&contract, msg);
    assert_eq!(3, sent_donations.donations.len());
}

#[test]
fn get_multiple_sent_donations_sorted() {
    let donation_message = String::from("henlo :)");
    let mut contract = setup_contract();
    let (a, _b, _c, _d) = four_users(&mut contract);
    let info = mock_info(a.address.as_str(), &coins(1000, "earth"));

    let _res = donate(&mut contract, &info, &a, "USER_B", donation_message.clone() + "1");
    donate(&mut contract, &info, &a, "USER_C", donation_message.clone() + "2").unwrap();
    donate(&mut contract, &info, &a, "USER_D", donation_message.clone() + "3").unwrap();

    let msg = QueryMsg::GetSentDonations { sender: a.username.clone() };
    let sent_donations = donations(&contract, msg);
    assert_eq!(donation_message.clone() + "1", sent_donations.donations[0].1.message);
    assert_eq!(donation_message.clone() + "2", sent_donations.donations[1].1.message);
    assert_eq!(donation_message.clone() + "3", sent_donations.donations[2].1.message);
}

#[test]
fn get_multiple_received_donations() {
    let donation_message = String::from("henlo :)");
    let mut contract = setup_contract();
    let (a, b, c, _d) = four_users(&mut contract);

    let info = mock_info(b.address.as_str(), &coins(1000, "earth"));
    let _res = donate(&mut contract, &info, &b, "USER_A", donation_message.clone());

    let info = mock_info(c.address.as_str(), &coins(1000, "earth"));
    donate(&mut contract, &info, &c, "USER_A", donation_message.clone()).unwrap();

    let info = mock_info(a.address.as_str(), &coins(1000, "earth"));
    donate(&mut contract, &info, &a, "USER_B", donation_message.clone()).unwrap();

    let msg = QueryMsg::GetReceivedDonations { recipient: a.username.clone() };
    let received_donations = donations(&contract, msg);
    assert_eq!(2, received_donations.donations.len());
}

#[test]
fn get_multiple_received_donations_sorted() {
    let donation_message = String::from("henlo :)");
    let mut contract = setup_contract();
    let (a, b, c, _d) = four_users(&mut contract);

    let info = mock_info(b.address.as_str(), &coins(1000, "earth"));
    let _res = donate(&mut contract, &info, &b, "USER_A", donation_message.clone() + "1");

    let info = mock_info(c.address.as_str(), &coins(1000, "earth"));
    donate(&mut contract, &info, &c, "USER_A", donation_message.clone() + "2").unwrap();

    let info = mock_info(c.address.as_str(), &coins(1000, "earth"));
    donate(&mut contract, &info, &c, "USER_A", donation_message.clone() + "3").unwrap();

    let msg = QueryMsg::GetReceivedDonations { recipient: a.username.clone() };
    let received_donations = donations(&contract, msg);
    assert_eq!(donation_message.clone() + "1", received_donations.donations[0].1.message);
    assert_eq!(donation_message.clone() + "2", received_donations.donations[1].1.message);
    assert_eq!(donation_message.clone() + "3", received_donations.donations[2].1.message);
}

#[test]
fn contract_tests_proper_instantiation() {
    let mut contract = AlpineContract::default();
    let info = mock_info("creator", &[]);
    let res = contract.instantiate(test_env(), info, InstantiateMsg {}).unwrap();
    assert_eq!(0, res.messages.len());
}

#[test]
fn proper_migration() {
    let mut contract = AlpineContract::default();
    let info = mock_info("creator", &[]);
    contract.instantiate(test_env(), info, InstantiateMsg {}).unwrap();

    let res = contract.migrate(test_env(), MigrateMsg {}).unwrap();
    assert_eq!(0, res.messages.len())
}

#[test]
fn successful_execute() {
    let mut contract = AlpineContract::default();
    let info = mock_info("creator", &[]);
    contract.instantiate(test_env(), info, InstantiateMsg {}).unwrap();

    let address = "osmo1tpsscvhaddf36gjvnyjhtwsyempptupypngxzs";
    let alpine_user_a = new_user(address, "");
    let msg = ExecuteMsg::RegisterUser {
        user: alpine_user_a.clone(),
        username: String::from("a_tester"),
    };
    let info = mock_info(alpine_user_a.address.as_str(), &[]);
    contract.execute(address_ok(address), test_env(), info, msg).unwrap();
}

#[test]
fn successful_query() {
    let mut contract = AlpineContract::default();
    let info = mock_info("creator", &[]);
    contract.instantiate(test_env(), info, InstantiateMsg {}).unwrap();

    let address = "osmo1tpsscvhaddf36gjvnyjhtwsyempptupypngxzs";
    let alpine_user_a = new_user(address, "");
    let msg = ExecuteMsg::RegisterUser {
        user: alpine_user_a.clone(),
        username: String::from("a_tester"),
    };
    let info = mock_info(alpine_user_a.address.as_str(), &[]);
    contract.execute(address_ok(address), test_env(), info, msg).unwrap();

    let res = contract.query(true, test_env(), QueryMsg::GetAllUsers {}).unwrap();
    match res {
        QueryResponse::Users(users) => assert_eq!(users.users.len(), 1),
        other => panic!("unexpected answer {:?}", other),
    }
}
