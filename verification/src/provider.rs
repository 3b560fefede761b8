//! Providers: generic factories that hand out trading clients.

use vstd::prelude::*;

use crate::api::Client;
use crate::errors::TradeError;

verus! {

/// Builds one concrete trading client.
pub trait IronTradeClientBuilder<T: Client>: Sized {
    fn build(self) -> (r: Result<T, TradeError>);
}

/// Creates trading clients from builders.  Providers with no state of
/// their own can rely on the default, which just runs the builder.
pub trait IronTradeClientProvider<T: Client>: Sized {
    fn create_client<U: IronTradeClientBuilder<T>>(&self, builder: U) -> (r: Result<
        T,
        TradeError,
    >) {
        builder.build()
    }
}

/// A provider with no state: clients come straight from the builder.
pub struct SimpleProvider {
    _private: (),
}

impl SimpleProvider {
    pub fn new() -> (r: SimpleProvider) {
        SimpleProvider { _private: () }
    }
}

impl<T: Client> IronTradeClientProvider<T> for SimpleProvider {

}

/// The provider for the live REST-backed backend; the client itself
/// lives outside the verified library.
pub struct AlpacaProvider {
    _use_new: (),
}

impl AlpacaProvider {
    pub fn new() -> (r: AlpacaProvider) {
        AlpacaProvider { _use_new: () }
    }
}

} // verus!
