use vstd::prelude::*;

mod account;
mod accrual;
mod error;
mod stream;
mod streamer;
mod subscription;
mod text;

pub use account::Account;
pub use accrual::{add_capped, cap, min, mul_capped, sum, total_outflow_rate};
pub use error::Error;
pub use stream::{
    has_duplicates, lemma_deposit_conservation, lemma_inactive_refuses,
    lemma_withdraw_same_instant, Stream,
};
pub use streamer::Streamer;
pub use subscription::Subscription;
pub use text::{normalize_optional_text, MAX_DESCRIPTION_LEN, MAX_TITLE_LEN};

verus! {

} // verus!
