use std::collections::BTreeMap;
use tanssi_pallets::assignment::AccountId;
use tanssi_pallets::ethereum_token_transfers::{
    Balance, ChannelId, ChannelInfo, Command, DispatchError, Error, Event, Message, Pallet, ParaId, SendError, Ticket,
    TokenId, TransfersConfig, TransfersRuntime, H160,
};
use tanssi_pallets::origin::Origin;

const ALICE: AccountId = 1;
const ETHEREUM_SOVEREIGN_ACCOUNT: AccountId = 6;
const FEES_ACCOUNT: AccountId = 7;
const EXISTENTIAL_DEPOSIT: Balance = 5;

/// The parts of the test runtime that the pallet uses.
#[derive(Clone, Debug, Default)]
struct Runtime {
    balances: BTreeMap<AccountId, Balance>,
    ethereum_system_handler_nonce: u32,
    sent_ethereum_message_nonce: u32,
    token_id: Option<TokenId>,
    halted: bool,
    delivered: Vec<Message>,
}

impl Runtime {
    fn free_balance(&self, who: AccountId) -> Balance {
        self.balances.get(&who).copied().unwrap_or(0)
    }
}

impl TransfersRuntime for Runtime {
    fn create_channel(&mut self, _channel_id: ChannelId, _agent_id: [u8; 32], _para_id: ParaId) -> Result<(), DispatchError> {
        self.ethereum_system_handler_nonce += 1;
        Ok(())
    }
    fn native_token_id(&self) -> Option<TokenId> {
        self.token_id
    }
    fn validate(&self, message: &Message) -> Result<(Ticket, Balance), SendError> {
        if self.halted {
            return Err(SendError::Halted);
        }
        Ok((Ticket { message_id: [0u8; 32], message: *message }, 20 + 30))
    }
    fn transfer(&mut self, from: AccountId, to: AccountId, amount: Balance) -> Result<(), DispatchError> {
        let free = self.free_balance(from);
        if free < amount + EXISTENTIAL_DEPOSIT {
            return Err(DispatchError::Other(1));
        }
        self.balances.insert(from, free - amount);
        self.balances.insert(to, self.free_balance(to) + amount);
        Ok(())
    }
    fn deliver(&mut self, ticket: Ticket) -> Result<(), SendError> {
        self.sent_ethereum_message_nonce += 1;
        self.delivered.push(ticket.message);
        Ok(())
    }
}

fn new_test_ext() -> (Pallet, Runtime) {
    let mut rt = Runtime::default();
    for who in 1..=5 {
        rt.balances.insert(who, 100);
    }
    rt.token_id = Some([1u8; 32]);
    let pallet = Pallet::new(TransfersConfig { ethereum_sovereign_account: ETHEREUM_SOVEREIGN_ACCOUNT, fees_account: FEES_ACCOUNT });
    (pallet, rt)
}

/// Everything the runtime stores, to check that a refused call left it as it was.
fn storage(pallet: &Pallet, rt: &Runtime) -> String {
    format!("{:?} {:?} {:?} {:?}", pallet.config, pallet.current_channel_info, pallet.events, rt)
}

/// Runs `f`, restoring the runtime when it fails.
fn transactional<F>(rt: &mut Runtime, f: F) -> Result<(), DispatchError>
where
    F: FnOnce(&mut Runtime) -> Result<(), DispatchError>,
{
    let saved = rt.clone();
    let res = f(rt);
    if res.is_err() {
        *rt = saved;
    }
    res
}

#[test]
fn test_set_token_transfer_channel_only_callable_by_root() {
    let (mut pallet, mut rt) = new_test_ext();
    let channel_id: ChannelId = [5u8; 32];
    let agent_id = [9u8; 32];
    let para_id: ParaId = 2000;

    let before = storage(&pallet, &rt);
    assert_eq!(
        pallet.set_token_transfer_channel(Origin::Signed(ALICE), channel_id, agent_id, para_id, &mut rt),
        Err(DispatchError::BadOrigin)
    );
    assert_eq!(storage(&pallet, &rt), before);
    assert_eq!(rt.ethereum_system_handler_nonce, 0);

    assert_eq!(pallet.set_token_transfer_channel(Origin::Root, channel_id, agent_id, para_id, &mut rt), Ok(()));
    let expected_channel_info = ChannelInfo { channel_id, para_id, agent_id };
    assert_eq!(pallet.events.last(), Some(&Event::ChannelInfoSet { channel_info: expected_channel_info }));
    assert_eq!(rt.ethereum_system_handler_nonce, 1);
}

#[test]
fn test_transfer_native_token_channel_id_not_set() {
    let (mut pallet, mut rt) = new_test_ext();
    assert_eq!(pallet.current_channel_info(), None);
    let h160: H160 = [0u8; 20];
    let before = storage(&pallet, &rt);
    assert_eq!(
        pallet.transfer_native_token(Origin::Signed(ALICE), 10u128, h160, &mut rt),
        Err(DispatchError::Module(Error::ChannelInfoNotSet))
    );
    assert_eq!(storage(&pallet, &rt), before);
}

#[test]
fn test_transfer_native_token_succeeds() {
    let (mut pallet, mut rt) = new_test_ext();
    let channel_id: ChannelId = [5u8; 32];
    let agent_id = [9u8; 32];
    let para_id: ParaId = 2000;

    assert_eq!(rt.ethereum_system_handler_nonce, 0);
    assert_eq!(pallet.set_token_transfer_channel(Origin::Root, channel_id, agent_id, para_id, &mut rt), Ok(()));

    // No amount transferred to sovereign yet.
    assert_eq!(rt.free_balance(ETHEREUM_SOVEREIGN_ACCOUNT), 0u128);
    assert_eq!(rt.free_balance(FEES_ACCOUNT), 0u128);

    let alice_balance_before = rt.free_balance(ALICE);
    assert_eq!(alice_balance_before, 100u128);

    let expected_channel_info = ChannelInfo { channel_id, para_id, agent_id };
    assert_eq!(pallet.events.last(), Some(&Event::ChannelInfoSet { channel_info: expected_channel_info }));
    assert_eq!(rt.ethereum_system_handler_nonce, 1);
    assert_eq!(rt.sent_ethereum_message_nonce, 0);

    let recipient: H160 = [0u8; 20];
    assert_eq!(pallet.transfer_native_token(Origin::Signed(ALICE), 10u128, recipient, &mut rt), Ok(()));

    let expected_token_id: TokenId = [1u8; 32];
    assert_eq!(
        pallet.events.last(),
        Some(&Event::NativeTokenTransferred {
            message_id: [0u8; 32],
            channel_id,
            source: ALICE,
            recipient,
            token_id: expected_token_id,
            amount: 10u128,
            fee: 50u128,
        })
    );

    // Alice balance = balance_before - fee - amount_transferred
    assert_eq!(rt.free_balance(ALICE), alice_balance_before - 50u128 - 10u128);
    assert_eq!(rt.free_balance(ETHEREUM_SOVEREIGN_ACCOUNT), 10u128);
    assert_eq!(rt.free_balance(FEES_ACCOUNT), 50u128);
    assert_eq!(rt.sent_ethereum_message_nonce, 1);
}

// Scenarios of our own.

#[test]
fn a_new_channel_must_differ_from_the_current_one() {
    let (mut pallet, mut rt) = new_test_ext();
    assert_eq!(pallet.set_token_transfer_channel(Origin::Root, [5u8; 32], [9u8; 32], 2000, &mut rt), Ok(()));
    assert_eq!(
        pallet.set_token_transfer_channel(Origin::Root, [5u8; 32], [8u8; 32], 2001, &mut rt),
        Err(DispatchError::Module(Error::ChannelIdAlreadyExists))
    );
    assert_eq!(
        pallet.set_token_transfer_channel(Origin::Root, [6u8; 32], [8u8; 32], 2000, &mut rt),
        Err(DispatchError::Module(Error::ParaIdAlreadyExists))
    );
    assert_eq!(
        pallet.set_token_transfer_channel(Origin::Root, [6u8; 32], [9u8; 32], 2001, &mut rt),
        Err(DispatchError::Module(Error::AgentIdAlreadyExists))
    );
    assert_eq!(pallet.set_token_transfer_channel(Origin::Root, [6u8; 32], [8u8; 32], 2001, &mut rt), Ok(()));
    assert_eq!(
        pallet.current_channel_info(),
        Some(ChannelInfo { channel_id: [6u8; 32], para_id: 2001, agent_id: [8u8; 32] })
    );
    assert_eq!(rt.ethereum_system_handler_nonce, 2);
}

#[test]
fn the_message_mints_the_foreign_token() {
    let (mut pallet, mut rt) = new_test_ext();
    assert_eq!(pallet.set_token_transfer_channel(Origin::Root, [5u8; 32], [9u8; 32], 2000, &mut rt), Ok(()));
    let recipient: H160 = [3u8; 20];
    assert_eq!(pallet.transfer_native_token(Origin::Signed(2), 20, recipient, &mut rt), Ok(()));
    assert_eq!(
        rt.delivered,
        vec![Message {
            id: None,
            channel_id: [5u8; 32],
            command: Command::MintForeignToken { token_id: [1u8; 32], recipient, amount: 20 },
        }]
    );
}

#[test]
fn refused_transfers_leave_everything_as_it_was() {
    let (mut pallet, mut rt) = new_test_ext();
    assert_eq!(pallet.transfer_native_token(Origin::Root, 10, [0u8; 20], &mut rt), Err(DispatchError::BadOrigin));
    assert_eq!(pallet.set_token_transfer_channel(Origin::Root, [5u8; 32], [9u8; 32], 2000, &mut rt), Ok(()));
    let events = pallet.events.len();

    rt.token_id = None;
    let res = transactional(&mut rt, |rt| pallet.transfer_native_token(Origin::Signed(ALICE), 10, [0u8; 20], rt));
    assert_eq!(res, Err(DispatchError::Module(Error::UnknownLocationForToken)));

    rt.token_id = Some([1u8; 32]);
    rt.halted = true;
    let res = transactional(&mut rt, |rt| pallet.transfer_native_token(Origin::Signed(ALICE), 10, [0u8; 20], rt));
    assert_eq!(res, Err(DispatchError::Module(Error::InvalidMessage(SendError::Halted))));

    rt.halted = false;
    // 100 cannot pay the fee of 50 and 50 more while staying alive.
    let res = transactional(&mut rt, |rt| pallet.transfer_native_token(Origin::Signed(ALICE), 50, [0u8; 20], rt));
    assert!(res.is_err());
    assert_eq!(rt.free_balance(ALICE), 100);
    assert_eq!(rt.free_balance(FEES_ACCOUNT), 0);
    assert_eq!(pallet.events.len(), events);
    assert_eq!(rt.sent_ethereum_message_nonce, 0);
}

#[test]
fn a_native_token_without_an_id_cannot_be_sent() {
    let (mut pallet, mut rt) = new_test_ext();
    assert_eq!(pallet.set_token_transfer_channel(Origin::Root, [5u8; 32], [9u8; 32], 2000, &mut rt), Ok(()));
    rt.token_id = None;
    let before = pallet.events.len();
    assert_eq!(
        pallet.transfer_native_token(Origin::Signed(2), 20, [0u8; 20], &mut rt),
        Err(DispatchError::Module(Error::UnknownLocationForToken))
    );
    assert_eq!(pallet.events.len(), before);
}
