use vstd::prelude::*;

verus! {

/// A change of one account's weight, as told to the hooks.
#[derive(Clone, Debug, PartialEq, Eq)]
pub struct MemberDiff {
    pub key: String,
    pub old: Option<u64>,
    pub new: Option<u64>,
}

impl MemberDiff {
    pub fn new(key: String, old: Option<u64>, new: Option<u64>) -> (r: MemberDiff)
        ensures
            r == (MemberDiff { key, old, new }),
    {
        MemberDiff { key, old, new }
    }

    /// A field-by-field copy.
    pub fn duplicate(&self) -> (r: MemberDiff)
        ensures
            r == *self,
    {
        MemberDiff { key: self.key.clone(), old: self.old, new: self.new }
    }
}

/// An outbound message that an operation asks the host to dispatch once its
/// state is committed.
#[derive(Clone, Debug, PartialEq, Eq)]
pub enum SubMsg {
    /// Tells the hook contract `contract_addr` of a change of weight.
    MemberChanged { contract_addr: String, diff: MemberDiff },
    /// Sends native coins to `to_address`.
    BankSend { to_address: String, denom: String, amount: u128 },
    /// Asks the token contract `contract_addr` to transfer tokens to `recipient`.
    Cw20Transfer { contract_addr: String, recipient: String, amount: u128 },
}

/// Whether `m` tells the hook `hook` that the weight of `addr` went from
/// `old` to `new`.
pub open spec fn is_hook_msg(m: SubMsg, hook: Seq<char>, addr: Seq<char>, old: Option<u64>, new: Option<u64>) -> bool {
    match m {
        SubMsg::MemberChanged { contract_addr, diff } => contract_addr@ == hook && diff.key@ == addr
            && diff.old == old && diff.new == new,
        _ => false,
    }
}

/// One message per registered hook, in registration order, each carrying
/// `diff`.
pub fn prepare_hooks(hooks: &Vec<String>, diff: &MemberDiff) -> (r: Vec<SubMsg>)
    ensures
        r@.len() == hooks@.len(),
        forall|i: int|
            0 <= i < hooks@.len() ==> #[trigger] r@[i] == (SubMsg::MemberChanged {
                contract_addr: hooks@[i],
                diff: *diff,
            }),
{
    let mut r: Vec<SubMsg> = Vec::new();
    let mut i: usize = 0;
    while i < hooks.len()
        invariant
            0 <= i <= hooks@.len(),
            r@.len() == i,
            forall|j: int|
                0 <= j < i ==> #[trigger] r@[j] == (SubMsg::MemberChanged {
                    contract_addr: hooks@[j],
                    diff: *diff,
                }),
        decreases hooks@.len() - i,
    {
        r.push(SubMsg::MemberChanged { contract_addr: hooks[i].clone(), diff: diff.duplicate() });
        i = i + 1;
    }
    r
}

} // verus!
