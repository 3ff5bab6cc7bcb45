//! Plain value types exchanged with the host: funds attached to a request,
//! value-transfer instructions handed back for atomic execution, and the
//! structured event attributes emitted on every successful mutation.

use vstd::prelude::*;

verus! {

/// A payment of some denomination, as attached to an inbound request.
#[derive(Debug)]
pub struct Coin {
    pub denom: String,
    pub amount: u128,
}

pub ghost struct CoinView {
    pub denom: Seq<char>,
    pub amount: u128,
}

impl View for Coin {
    type V = CoinView;

    open spec fn view(&self) -> CoinView {
        CoinView { denom: self.denom@, amount: self.amount }
    }
}

impl Clone for Coin {
    fn clone(&self) -> (r: Self)
        ensures
            r == *self,
    {
        Coin { denom: self.denom.clone(), amount: self.amount }
    }
}

/// A single value transfer the host must execute atomically with the state
/// transition that produced it.
#[derive(Debug)]
pub struct BankTransfer {
    pub to_address: String,
    pub denom: String,
    pub amount: u128,
}

pub ghost struct BankTransferView {
    pub to_address: Seq<char>,
    pub denom: Seq<char>,
    pub amount: u128,
}

impl View for BankTransfer {
    type V = BankTransferView;

    open spec fn view(&self) -> BankTransferView {
        BankTransferView {
            to_address: self.to_address@,
            denom: self.denom@,
            amount: self.amount,
        }
    }
}

/// One structured event attribute (key/value pair).
#[derive(Debug)]
pub struct Attribute {
    pub key: String,
    pub value: String,
}

pub ghost struct AttributeView {
    pub key: Seq<char>,
    pub value: Seq<char>,
}

impl View for Attribute {
    type V = AttributeView;

    open spec fn view(&self) -> AttributeView {
        AttributeView { key: self.key@, value: self.value@ }
    }
}

/// What a successful operation hands back to the host: the transfers to
/// execute and the event attributes to record.
#[derive(Debug)]
pub struct Response {
    pub messages: Vec<BankTransfer>,
    pub attributes: Vec<Attribute>,
}

pub ghost struct ResponseView {
    pub messages: Seq<BankTransferView>,
    pub attributes: Seq<AttributeView>,
}

impl View for Response {
    type V = ResponseView;

    open spec fn view(&self) -> ResponseView {
        ResponseView {
            messages: self.messages@.map_values(|m: BankTransfer| m@),
            attributes: self.attributes@.map_values(|a: Attribute| a@),
        }
    }
}

impl Response {
    pub fn new() -> (r: Response)
        ensures
            r@.messages == Seq::<BankTransferView>::empty(),
            r@.attributes == Seq::<AttributeView>::empty(),
    {
        let r = Response { messages: Vec::new(), attributes: Vec::new() };
        proof {
            assert(r@.messages =~= Seq::<BankTransferView>::empty());
            assert(r@.attributes =~= Seq::<AttributeView>::empty());
        }
        r
    }

    pub fn add_attribute(&mut self, key: &str, value: String)
        ensures
            final(self)@.messages == old(self)@.messages,
            final(self)@.attributes == old(self)@.attributes.push(
                (AttributeView { key: key@, value: value@ }),
            ),
    {
        let ghost pre = self@;
        let key_owned = key.to_owned();
        self.attributes.push(Attribute { key: key_owned, value });
        proof {
            assert(self@.messages =~= pre.messages);
            assert(self@.attributes =~= pre.attributes.push(
                AttributeView { key: key@, value: value@ },
            ));
        }
    }

    pub fn add_message(&mut self, msg: BankTransfer)
        ensures
            final(self)@.attributes == old(self)@.attributes,
            final(self)@.messages == old(self)@.messages.push(msg@),
    {
        let ghost pre = self@;
        let ghost m = msg@;
        self.messages.push(msg);
        proof {
            assert(self@.attributes =~= pre.attributes);
            assert(self@.messages =~= pre.messages.push(m));
        }
    }
}

} // verus!
