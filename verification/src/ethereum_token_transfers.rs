//! Sending the native token to Ethereum: root sets the bridge channel that token transfers go
//! through; a signed account then sends an amount to an Ethereum recipient as a command to mint
//! the foreign token, after paying the bridge's fee to the fees account and moving the amount
//! to the Ethereum sovereign account.
//!
//! The runtime provides the bridge (channel creation, message validation and delivery), the
//! currency and the id of the native token. A call that fails leaves the pallet as it was.

use vstd::prelude::*;
use crate::assignment::AccountId;
use crate::origin::Origin;

verus! {

/// Amount of the native currency.
pub type Balance = u128;
/// A parachain id.
pub type ParaId = u32;
/// A bridge channel id.
pub type ChannelId = [u8; 32];
/// A bridge agent id.
pub type AgentId = [u8; 32];
/// The id of a token on Ethereum.
pub type TokenId = [u8; 32];
/// An Ethereum address.
pub type H160 = [u8; 20];
/// The id of a bridge message.
pub type MessageId = [u8; 32];

/// Information of the token-sending channel stored in this pallet.
#[derive(Debug, Clone, Copy, PartialEq, Eq)]
pub struct ChannelInfo {
    pub channel_id: ChannelId,
    pub para_id: ParaId,
    pub agent_id: AgentId,
}

/// Why the bridge refused a message.
#[derive(Debug, Clone, Copy, PartialEq, Eq, Structural)]
pub enum SendError {
    /// Message is too large to be safely executed on Ethereum.
    MessageTooLarge,
    /// The bridge has been halted for maintenance.
    Halted,
    /// Invalid Channel.
    InvalidChannel,
}

/// Errors of the pallet.
#[derive(Debug, Clone, Copy, PartialEq, Eq, Structural)]
pub enum Error {
    /// The requested ChannelId is already present in this pallet.
    ChannelIdAlreadyExists,
    /// The channel's information has not been set on this pallet yet.
    ChannelInfoNotSet,
    /// The requested ParaId is already present in this pallet.
    ParaIdAlreadyExists,
    /// The requested AgentId is already present in this pallet.
    AgentIdAlreadyExists,
    /// Conversion from Location to TokenId failed.
    UnknownLocationForToken,
    /// The outbound message is invalid prior to send.
    InvalidMessage(SendError),
    /// The outbound message could not be sent.
    TransferMessageNotSent(SendError),
}

/// Why a call failed: an error of this pallet, or one of the runtime.
#[derive(Debug, Clone, Copy, PartialEq, Eq, Structural)]
pub enum DispatchError {
    /// The origin may not make this call.
    BadOrigin,
    /// An error of this pallet.
    Module(Error),
    /// Another error of the runtime, by its index.
    Other(u32),
}

/// Events of the pallet.
#[derive(Debug, Clone, Copy, PartialEq, Eq)]
pub enum Event {
    /// Information for the channel was set properly.
    ChannelInfoSet { channel_info: ChannelInfo },
    /// Some native token was successfully transferred to Ethereum.
    NativeTokenTransferred {
        message_id: MessageId,
        channel_id: ChannelId,
        source: AccountId,
        recipient: H160,
        token_id: TokenId,
        amount: u128,
        fee: Balance,
    },
}

/// A command for Ethereum.
#[derive(Debug, Clone, Copy, PartialEq, Eq)]
pub enum Command {
    /// Mint `amount` of the foreign token `token_id` for `recipient`.
    MintForeignToken { token_id: TokenId, recipient: H160, amount: u128 },
}

/// A message to Ethereum, through a channel.
#[derive(Debug, Clone, Copy, PartialEq, Eq)]
pub struct Message {
    pub id: Option<MessageId>,
    pub channel_id: ChannelId,
    pub command: Command,
}

/// A validated message, ready to be delivered.
#[derive(Debug, Clone, Copy, PartialEq, Eq)]
pub struct Ticket {
    pub message_id: MessageId,
    pub message: Message,
}

/// What the runtime does for this pallet: the bridge to Ethereum, the currency and the id of
/// the native token.
pub trait TransfersRuntime {
    /// Creates the bridge channel `channel_id` of agent `agent_id` for parachain `para_id`.
    fn create_channel(&mut self, channel_id: ChannelId, agent_id: AgentId, para_id: ParaId) -> Result<(), DispatchError>;
    /// The id on Ethereum of the native token, if its location converts to one.
    fn native_token_id(&self) -> Option<TokenId>;
    /// Validates `message`: the ticket to deliver it and the total fee it costs.
    fn validate(&self, message: &Message) -> Result<(Ticket, Balance), SendError>;
    /// Transfers `amount` from `from` to `to`, keeping `from` alive.
    fn transfer(&mut self, from: AccountId, to: AccountId, amount: Balance) -> Result<(), DispatchError>;
    /// Delivers a validated message.
    fn deliver(&mut self, ticket: Ticket) -> Result<(), SendError>;
}

/// A call the pallet made to the runtime, with what the runtime answered.
pub enum TransfersCall {
    CreateChannel { channel_id: ChannelId, agent_id: AgentId, para_id: ParaId, result: Result<(), DispatchError> },
    NativeTokenId { id: Option<TokenId> },
    Validate { message: Message, result: Result<(Ticket, Balance), SendError> },
    Transfer { from: AccountId, to: AccountId, amount: Balance, result: Result<(), DispatchError> },
    Deliver { ticket: Ticket, result: Result<(), SendError> },
}

/// The calls made to the runtime from `before` on, when `before` is a prefix of `after`.
pub open spec fn calls_since(before: Seq<TransfersCall>, after: Seq<TransfersCall>) -> Seq<TransfersCall> {
    after.subrange(before.len() as int, after.len() as int)
}

/// Constants of the runtime for this pallet.
#[derive(Debug, Clone, Copy, PartialEq, Eq, Structural)]
pub struct TransfersConfig {
    /// Ethereum sovereign account, where native transfers go to.
    pub ethereum_sovereign_account: AccountId,
    /// Account in which fees are paid.
    pub fees_account: AccountId,
}

/// State of the pallet.
pub struct Pallet {
    pub config: TransfersConfig,
    /// The channel that token transfers go through, once set.
    pub current_channel_info: Option<ChannelInfo>,
    /// Events deposited so far.
    pub events: Vec<Event>,
    /// Every call made to the runtime so far, in order, with its answer.
    pub calls: Ghost<Seq<TransfersCall>>,
}

/// Whether two 32-byte ids are equal.
fn same_id(a: &[u8; 32], b: &[u8; 32]) -> (r: bool)
    ensures
        r == (a@ == b@),
{
    let mut i: usize = 0;
    while i < 32
        invariant
            0 <= i <= 32,
            a@.len() == 32,
            b@.len() == 32,
            forall|j: int| 0 <= j < i ==> a@[j] == b@[j],
        decreases 32 - i,
    {
        if a[i] != b[i] {
            return false;
        }
        i = i + 1;
    }
    assert(a@ =~= b@);
    true
}

/// The message that mints `amount` of `token_id` for `recipient` on Ethereum, through
/// `channel_id`.
pub open spec fn mint_message(channel_id: ChannelId, token_id: TokenId, recipient: H160, amount: u128) -> Message {
    Message { id: None, channel_id, command: Command::MintForeignToken { token_id, recipient, amount } }
}

impl Pallet {
    /// A pallet with no channel set.
    pub fn new(config: TransfersConfig) -> (r: Self)
        ensures
            r.config == config,
            r.current_channel_info is None,
            r.events@ == Seq::<Event>::empty(),
            r.calls@ == Seq::<TransfersCall>::empty(),
    {
        Pallet { config, current_channel_info: None, events: Vec::new(), calls: Ghost(Seq::empty()) }
    }

    /// The channel that token transfers go through, once set.
    pub fn current_channel_info(&self) -> (r: Option<ChannelInfo>)
        ensures
            r == self.current_channel_info,
    {
        self.current_channel_info
    }

    /// Why setting the channel would be refused before it is created: only root may, and the
    /// new channel must differ from the current one in its channel, parachain and agent.
    pub open spec fn channel_error(current: Option<ChannelInfo>, origin: Origin, channel_id: ChannelId, agent_id: AgentId, para_id: ParaId) -> Option<DispatchError> {
        if origin != Origin::Root {
            Some(DispatchError::BadOrigin)
        } else {
            match current {
                Some(ci) => if ci.channel_id@ == channel_id@ {
                    Some(DispatchError::Module(Error::ChannelIdAlreadyExists))
                } else if ci.para_id == para_id {
                    Some(DispatchError::Module(Error::ParaIdAlreadyExists))
                } else if ci.agent_id@ == agent_id@ {
                    Some(DispatchError::Module(Error::AgentIdAlreadyExists))
                } else {
                    None
                },
                None => None,
            }
        }
    }

    /// Sets the channel that token transfers go through, and has the bridge create it.
    pub fn set_token_transfer_channel<R: TransfersRuntime>(
        &mut self,
        origin: Origin,
        channel_id: ChannelId,
        agent_id: AgentId,
        para_id: ParaId,
        runtime: &mut R,
    ) -> (res: Result<(), DispatchError>)
        ensures
            final(self).config == old(self).config,
            res is Err ==> final(self).current_channel_info == old(self).current_channel_info && final(self).events@ == old(self).events@,
            Self::channel_error(old(self).current_channel_info, origin, channel_id, agent_id, para_id) is Some ==> res == Err::<(), DispatchError>(
                Self::channel_error(old(self).current_channel_info, origin, channel_id, agent_id, para_id)->Some_0,
            ),
            res is Ok ==> {
                let info = ChannelInfo { channel_id, para_id, agent_id };
                &&& final(self).current_channel_info == Some(info)
                &&& final(self).events@ == old(self).events@.push(Event::ChannelInfoSet { channel_info: info })
            },
            Self::channel_error(old(self).current_channel_info, origin, channel_id, agent_id, para_id) is Some ==> final(self).calls@ == old(self).calls@,
            Self::channel_error(old(self).current_channel_info, origin, channel_id, agent_id, para_id) is None ==> {
                let calls = final(self).calls@;
                &&& calls.len() == old(self).calls@.len() + 1
                &&& calls.drop_last() == old(self).calls@
                &&& calls.last() == TransfersCall::CreateChannel { channel_id, agent_id, para_id, result: res }
            },
    {
        match origin {
            Origin::Root => {},
            _ => {
                return Err(DispatchError::BadOrigin);
            },
        }
        if let Some(channel_info) = self.current_channel_info {
            if same_id(&channel_info.channel_id, &channel_id) {
                return Err(DispatchError::Module(Error::ChannelIdAlreadyExists));
            }
            if channel_info.para_id == para_id {
                return Err(DispatchError::Module(Error::ParaIdAlreadyExists));
            }
            if same_id(&channel_info.agent_id, &agent_id) {
                return Err(DispatchError::Module(Error::AgentIdAlreadyExists));
            }
        }
        let channel_info = ChannelInfo { channel_id, para_id, agent_id };
        let created: Result<(), DispatchError> = match runtime.create_channel(channel_info.channel_id, channel_info.agent_id, channel_info.para_id) {
            Ok(()) => Ok(()),
            Err(e) => Err(e),
        };
        self.calls = Ghost(self.calls@.push(TransfersCall::CreateChannel { channel_id, agent_id, para_id, result: created }));
        proof { assert(self.calls@.drop_last() =~= old(self).calls@); }
        match created {
            Ok(()) => {},
            Err(e) => {
                return Err(e);
            },
        }
        self.current_channel_info = Some(channel_info);
        self.events.push(Event::ChannelInfoSet { channel_info });
        Ok(())
    }

    /// What a transfer of `amount` of the native token from `source` to `recipient` leads to,
    /// given the calls made to the runtime (`seg`): the events `fin` after `events`, and the
    /// result `res`. The token id is read, the message minting it is validated on `channel`,
    /// the fee then the amount are transferred from the source (to the fees account and to the
    /// Ethereum sovereign account), and the ticket is delivered.
    pub open spec fn transfer_made(
        config: TransfersConfig,
        channel: ChannelInfo,
        source: AccountId,
        recipient: H160,
        amount: u128,
        seg: Seq<TransfersCall>,
        events: Seq<Event>,
        fin: Seq<Event>,
        res: Result<(), DispatchError>,
    ) -> bool {
        &&& seg.len() >= 1
        &&& seg[0] is NativeTokenId
        &&& match seg[0]->NativeTokenId_id {
            None => seg.len() == 1 && fin == events && res == Err::<(), DispatchError>(DispatchError::Module(Error::UnknownLocationForToken)),
            Some(token_id) => {
                &&& seg.len() >= 2
                &&& seg[1] == TransfersCall::Validate {
                    message: mint_message(channel.channel_id, token_id, recipient, amount),
                    result: seg[1]->Validate_result,
                }
                &&& match seg[1]->Validate_result {
                    Err(e) => seg.len() == 2 && fin == events && res == Err::<(), DispatchError>(DispatchError::Module(Error::InvalidMessage(e))),
                    Ok((ticket, fee)) => {
                        &&& seg.len() >= 3
                        &&& seg[2] == TransfersCall::Transfer { from: source, to: config.fees_account, amount: fee, result: seg[2]->Transfer_result }
                        &&& if seg[2]->Transfer_result is Err {
                            seg.len() == 3 && fin == events && res == seg[2]->Transfer_result
                        } else {
                            &&& seg.len() >= 4
                            &&& seg[3] == TransfersCall::Transfer {
                                from: source,
                                to: config.ethereum_sovereign_account,
                                amount,
                                result: seg[3]->Transfer_result,
                            }
                            &&& if seg[3]->Transfer_result is Err {
                                seg.len() == 4 && fin == events && res == seg[3]->Transfer_result
                            } else {
                                &&& seg.len() == 5
                                &&& seg[4] == TransfersCall::Deliver { ticket, result: seg[4]->Deliver_result }
                                &&& match seg[4]->Deliver_result {
                                    Err(e) => fin == events && res == Err::<(), DispatchError>(DispatchError::Module(Error::TransferMessageNotSent(e))),
                                    Ok(()) => {
                                        &&& res is Ok
                                        &&& fin == events.push(Event::NativeTokenTransferred {
                                            message_id: ticket.message_id,
                                            channel_id: channel.channel_id,
                                            source,
                                            recipient,
                                            token_id,
                                            amount,
                                            fee,
                                        })
                                    },
                                }
                            }
                        }
                    },
                }
            },
        }
    }

    /// Sends `amount` of the native token to `recipient` on Ethereum: the bridge validates a
    /// message minting the foreign token through the current channel; the sender pays its fee
    /// to the fees account and the amount to the Ethereum sovereign account, then the message
    /// is delivered.
    pub fn transfer_native_token<R: TransfersRuntime>(&mut self, origin: Origin, amount: u128, recipient: H160, runtime: &mut R) -> (res: Result<(), DispatchError>)
        ensures
            final(self).config == old(self).config,
            final(self).current_channel_info == old(self).current_channel_info,
            res is Err ==> final(self).events@ == old(self).events@,
            !(origin is Signed) ==> res == Err::<(), DispatchError>(DispatchError::BadOrigin),
            origin is Signed && old(self).current_channel_info is None ==> res == Err::<(), DispatchError>(DispatchError::Module(Error::ChannelInfoNotSet)),
            !(origin is Signed && old(self).current_channel_info is Some) ==> final(self).calls@ == old(self).calls@,
            origin is Signed && old(self).current_channel_info is Some ==> {
                &&& final(self).calls@.len() >= old(self).calls@.len()
                &&& final(self).calls@.subrange(0, old(self).calls@.len() as int) == old(self).calls@
                &&& Self::transfer_made(
                    old(self).config,
                    old(self).current_channel_info->Some_0,
                    origin->Signed_0,
                    recipient,
                    amount,
                    calls_since(old(self).calls@, final(self).calls@),
                    old(self).events@,
                    final(self).events@,
                    res,
                )
            },
    {
        let source = match origin {
            Origin::Signed(a) => a,
            _ => {
                return Err(DispatchError::BadOrigin);
            },
        };
        let channel_info = match self.current_channel_info {
            Some(ci) => ci,
            None => {
                return Err(DispatchError::Module(Error::ChannelInfoNotSet));
            },
        };
        let ghost k = self.calls@.len();
        let token = runtime.native_token_id();
        self.calls = Ghost(self.calls@.push(TransfersCall::NativeTokenId { id: token }));
        proof { assert(self.calls@.subrange(0, k as int) =~= old(self).calls@); }
        let token_id = match token {
            Some(t) => t,
            None => {
                proof { assert(calls_since(old(self).calls@, self.calls@) =~= seq![TransfersCall::NativeTokenId { id: token }]); }
                return Err(DispatchError::Module(Error::UnknownLocationForToken));
            },
        };
        let message = Message {
            id: None,
            channel_id: channel_info.channel_id,
            command: Command::MintForeignToken { token_id, recipient, amount },
        };
        assert(message == mint_message(channel_info.channel_id, token_id, recipient, amount));
        let validated = runtime.validate(&message);
        self.calls = Ghost(self.calls@.push(TransfersCall::Validate { message, result: validated }));
        let ghost c0 = TransfersCall::NativeTokenId { id: token };
        let ghost c1 = TransfersCall::Validate { message, result: validated };
        proof {
            assert(self.calls@.subrange(0, k as int) =~= old(self).calls@);
            assert(calls_since(old(self).calls@, self.calls@) =~= seq![c0, c1]);
        }
        let (ticket, fee) = match validated {
            Ok(r) => r,
            Err(e) => {
                return Err(DispatchError::Module(Error::InvalidMessage(e)));
            },
        };
        let fees_account = self.config.fees_account;
        let paid_fee: Result<(), DispatchError> = match runtime.transfer(source, fees_account, fee) {
            Ok(()) => Ok(()),
            Err(e) => Err(e),
        };
        self.calls = Ghost(self.calls@.push(TransfersCall::Transfer { from: source, to: fees_account, amount: fee, result: paid_fee }));
        let ghost c2 = TransfersCall::Transfer { from: source, to: fees_account, amount: fee, result: paid_fee };
        proof {
            assert(self.calls@.subrange(0, k as int) =~= old(self).calls@);
            assert(calls_since(old(self).calls@, self.calls@) =~= seq![c0, c1, c2]);
        }
        match paid_fee {
            Ok(()) => {},
            Err(e) => {
                return Err(e);
            },
        }
        let sovereign = self.config.ethereum_sovereign_account;
        let paid_amount: Result<(), DispatchError> = match runtime.transfer(source, sovereign, amount) {
            Ok(()) => Ok(()),
            Err(e) => Err(e),
        };
        self.calls = Ghost(self.calls@.push(TransfersCall::Transfer { from: source, to: sovereign, amount, result: paid_amount }));
        let ghost c3 = TransfersCall::Transfer { from: source, to: sovereign, amount, result: paid_amount };
        proof {
            assert(self.calls@.subrange(0, k as int) =~= old(self).calls@);
            assert(calls_since(old(self).calls@, self.calls@) =~= seq![c0, c1, c2, c3]);
        }
        match paid_amount {
            Ok(()) => {},
            Err(e) => {
                return Err(e);
            },
        }
        let message_id = ticket.message_id;
        let ghost sent = ticket;
        let delivered: Result<(), SendError> = match runtime.deliver(ticket) {
            Ok(()) => Ok(()),
            Err(e) => Err(e),
        };
        self.calls = Ghost(self.calls@.push(TransfersCall::Deliver { ticket: sent, result: delivered }));
        let ghost c4 = TransfersCall::Deliver { ticket: sent, result: delivered };
        proof {
            assert(self.calls@.subrange(0, k as int) =~= old(self).calls@);
            assert(calls_since(old(self).calls@, self.calls@) =~= seq![c0, c1, c2, c3, c4]);
        }
        match delivered {
            Ok(()) => {},
            Err(e) => {
                return Err(DispatchError::Module(Error::TransferMessageNotSent(e)));
            },
        }
        self.events.push(
            Event::NativeTokenTransferred {
                message_id,
                channel_id: channel_info.channel_id,
                source,
                recipient,
                token_id,
                amount,
                fee,
            },
        );
        Ok(())
    }
}

/// Once a channel is set, setting it again through the same channel is refused.
pub proof fn the_current_channel_cannot_be_set_again(info: ChannelInfo, agent_id: AgentId, para_id: ParaId)
    ensures
        Pallet::channel_error(Some(info), Origin::Root, info.channel_id, agent_id, para_id) == Some(
            DispatchError::Module(Error::ChannelIdAlreadyExists),
        ),
{
}

} // verus!
