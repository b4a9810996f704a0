use vstd::prelude::*;

verus! {

/// The credentials the booking page asks for at login.
pub struct LoginInfo {
    id: String,
    password: String,
}

impl LoginInfo {
    pub closed spec fn spec_id(self) -> Seq<char> {
        self.id@
    }

    pub closed spec fn spec_password(self) -> Seq<char> {
        self.password@
    }

    pub fn new(id: String, password: String) -> (r: LoginInfo)
        ensures
            r.spec_id() == id@,
            r.spec_password() == password@,
    {
        LoginInfo { id, password }
    }

    pub fn id(&self) -> (r: &String)
        ensures
            r@ == self.spec_id(),
    {
        &self.id
    }

    pub fn password(&self) -> (r: &String)
        ensures
            r@ == self.spec_password(),
    {
        &self.password
    }
}

} // verus!
