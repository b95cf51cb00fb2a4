use vstd::prelude::*;

use crate::errors::ErrorKind;

verus! {

/// The deployment configuration: the parent treasury that receives the
/// forwarded fees, and the optional administrator who may repoint it.
#[derive(Clone, Copy, Debug, PartialEq, Eq, Structural)]
pub struct Config {
    pub parent_canister: u64,
    pub admin: Option<u64>,
}

impl Config {
    /// A fresh configuration: the given treasury, no administrator yet.
    pub fn new(parent_canister: u64) -> (r: Config)
        ensures
            r.parent_canister == parent_canister,
            r.admin is None,
    {
        Config { parent_canister, admin: None }
    }

    /// The treasury the fee sweeps forward to.
    pub fn get_parent_canister(&self) -> (r: u64)
        ensures
            r == self.parent_canister,
    {
        self.parent_canister
    }

    /// The administrator, if one was ever claimed.
    pub fn get_admin(&self) -> (r: Option<u64>)
        ensures
            r == self.admin,
    {
        self.admin
    }

    /// Whether `caller` holds the administrator role.
    pub fn is_admin(&self, caller: u64) -> (r: bool)
        ensures
            r == (self.admin == Some(caller)),
    {
        match self.admin {
            Some(a) => a == caller,
            None => false,
        }
    }

    /// Claim or hand over the administrator role: the first call sets
    /// it, after that only the current administrator may change it.
    pub fn set_admin(&mut self, caller: u64, new_admin: u64) -> (r: Result<(), ErrorKind>)
        ensures
            r is Ok <==> old(self).admin is None || old(self).admin == Some(caller),
            match r {
                Ok(()) => *final(self) == (Config { admin: Some(new_admin), ..*old(self) }),
                Err(e) => {
                    &&& *final(self) == *old(self)
                    &&& e == ErrorKind::NotAuthorized
                },
            },
    {
        match self.admin {
            Some(current) => {
                if current != caller {
                    return Err(ErrorKind::NotAuthorized);
                }
            },
            None => {},
        }
        self.admin = Some(new_admin);
        Ok(())
    }

    /// Repoint the treasury; only the administrator may.
    pub fn update_parent_canister(&mut self, caller: u64, new_parent: u64) -> (r: Result<
        (),
        ErrorKind,
    >)
        ensures
            r is Ok <==> old(self).admin == Some(caller),
            match r {
                Ok(()) => *final(self) == (Config {
                    parent_canister: new_parent,
                    ..*old(self)
                }),
                Err(e) => {
                    &&& *final(self) == *old(self)
                    &&& e == ErrorKind::NotAuthorized
                },
            },
    {
        if !self.is_admin(caller) {
            return Err(ErrorKind::NotAuthorized);
        }
        self.parent_canister = new_parent;
        Ok(())
    }
}

} // verus!
