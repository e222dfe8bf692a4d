//! The library's types and traits in one place.

pub use crate::cart::fut::{CartGroupFuture, CartOptimizeFuture};
pub use crate::cart::item::{CartItem, CartItemVariant, CartLine};
pub use crate::cart::optimizer::Optimizer;
pub use crate::cart::optimizer_candidate::OptimizerCandidate;
pub use crate::cart::Cart;
pub use crate::database::{Database, DatabaseAppend};
pub use crate::product::extra::ProductAmount;
pub use crate::product::fut::ProductAmountGroupFuture;
pub use crate::product::{CartItemProduct, Product};
pub use crate::promotion::{CartItemPromotion, Promotion};
pub use crate::{ErrorVariant, Terminal, TerminalEntityInterface, WithNewPricing};
