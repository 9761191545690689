//! A helper that numbers service messages in chrono order.
use vstd::prelude::*;
use crate::domain::amount::{fits_i64, Amount, SCALE};
use crate::domain::transaction::{ClientId, TransactionId, TransactionType};
use crate::message::InputMessage;
use crate::service::ServiceMessage;

verus! {

/// Creates [`ServiceMessage`]s with auto-incrementing chrono order.
pub struct MessageSequencer(u64);

impl MessageSequencer {
    /// The chrono order of the next message.
    pub closed spec fn next_order(&self) -> u64 {
        self.0
    }

    /// Builds a [`ServiceMessage::Incoming`] for an amount of whole units,
    /// with the next chrono order value.
    pub fn create_message<C, D>(
        &mut self,
        client_id: ClientId,
        transaction_id: TransactionId,
        amount: i64,
        transaction_type: TransactionType,
        sx: C,
    ) -> (r: ServiceMessage<C, D>)
        requires
            fits_i64(amount * SCALE),
            old(self).next_order() < u64::MAX,
        ensures
            final(self).next_order() == old(self).next_order() + 1,
            r matches ServiceMessage::Incoming(m, c) && c == sx && m.chrono_order == old(
                self,
            ).next_order() && m.transaction_type == transaction_type && m.client_id == client_id
                && m.transaction_id == transaction_id && m.amount@ == amount * SCALE,
    {
        let chrono_order = self.0;
        self.0 = self.0 + 1;
        ServiceMessage::Incoming(
            Box::new(
                InputMessage {
                    chrono_order,
                    transaction_type,
                    client_id,
                    transaction_id,
                    amount: Amount::from_major(amount),
                },
            ),
            sx,
        )
    }
}

impl Default for MessageSequencer {
    fn default() -> (r: Self)
        ensures
            r.next_order() == 0,
    {
        MessageSequencer(0)
    }
}

} // verus!
