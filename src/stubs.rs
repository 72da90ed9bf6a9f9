use vstd::prelude::*;
use vstd::string::StringSliceAdditionalSpecFns;
use crate::bytes::{bytes_eq, push_str};
use crate::response::Response;

verus! {

pub const JSON: &'static str = "application/json; charset=utf-8";

pub const NO_STORE_JSON: &'static str = "no-store";

pub const INVALID_JSON: &'static str = "{\"error\":\"Invalid JSON format\"}";

pub const REGISTER_MISSING: &'static str = "{\"error\":\"Username, email and password are required\"}";

pub const INVALID_EMAIL: &'static str = "{\"error\":\"Invalid email format\"}";

pub const SHORT_PASSWORD: &'static str = "{\"error\":\"Password must be at least 6 characters\"}";

pub const USER_EXISTS: &'static str = "{\"error\":\"Username or email already exists\"}";

pub const REGISTERED: &'static str = "{\"message\":\"User registered successfully\"}";

pub const LOGIN_MISSING: &'static str = "{\"error\":\"Username and password are required\"}";

pub const BAD_LOGIN: &'static str = "{\"error\":\"Invalid username or password\"}";

/// Shortest password that registration accepts, in bytes.
pub const MIN_PASSWORD: usize = 6;

/// The string fields of a registration body; an absent field is empty.
#[derive(Debug)]
pub struct RegisterForm {
    pub username: Vec<u8>,
    pub email: Vec<u8>,
    pub password: Vec<u8>,
}

/// The string fields of a login body; an absent field is empty.
#[derive(Debug)]
pub struct LoginForm {
    pub username: Vec<u8>,
    pub password: Vec<u8>,
}

/// A registered account.
#[derive(Debug)]
pub struct User {
    pub username: Vec<u8>,
    pub email: Vec<u8>,
    pub password: Vec<u8>,
}

pub type UserView = (Seq<u8>, Seq<u8>, Seq<u8>);

/// The accounts that registration has created, no two sharing a user name
/// or an email.
#[derive(Debug)]
pub struct UserStore {
    users: Vec<User>,
}

/// A JSON response with a fixed body.
fn json_response(status: u16, text: &str) -> (r: Response)
    ensures
        r.status == status,
        r.content_type == JSON,
        r.cache_control == Some(NO_STORE_JSON),
        r.body@ == text.spec_bytes(),
{
    let mut body: Vec<u8> = Vec::new();
    push_str(&mut body, text);
    Response { status, content_type: JSON, cache_control: Some(NO_STORE_JSON), body }
}

/// Whether an email-shaped string holds both `@` and `.`.
pub open spec fn email_shaped(e: Seq<u8>) -> bool {
    e.contains(64u8) && e.contains(46u8)
}

/// Whether `s` holds the byte `b`.
pub fn holds_byte(s: &[u8], b: u8) -> (r: bool)
    ensures
        r == s@.contains(b),
{
    let mut i: usize = 0;
    while i < s.len()
        invariant
            i <= s@.len(),
            forall|j: int| 0 <= j < i ==> s@[j] != b,
        decreases s@.len() - i,
    {
        if s[i] == b {
            return true;
        }
        i += 1;
    }
    false
}

/// A byte inside a JSON string: `"` and `\` are escaped, control bytes
/// are written as `\u00XX`.
pub open spec fn json_escape_byte(b: u8) -> Seq<u8> {
    if b == 34 || b == 92 {
        seq![92u8, b]
    } else if b < 32 {
        seq![92u8, 117u8, 48u8, 48u8, crate::listing::hex_digit(b / 16), crate::listing::hex_digit(b % 16)]
    } else {
        seq![b]
    }
}

pub open spec fn json_escape(s: Seq<u8>) -> Seq<u8>
    decreases s.len(),
{
    if s.len() == 0 {
        seq![]
    } else {
        json_escape(s.drop_last()) + json_escape_byte(s.last())
    }
}

/// Appends `s` escaped for a JSON string.
pub fn push_json_escaped(out: &mut Vec<u8>, s: &[u8])
    ensures
        final(out)@ == old(out)@ + json_escape(s@),
{
    let ghost start = out@;
    let mut i: usize = 0;
    while i < s.len()
        invariant
            i <= s@.len(),
            out@ == start + json_escape(s@.subrange(0, i as int)),
        decreases s@.len() - i,
    {
        let b = s[i];
        let ghost o0 = out@;
        if b == 34 || b == 92 {
            out.push(92);
            out.push(b);
        } else if b < 32 {
            let hi: u8 = b / 16;
            let lo: u8 = b % 16;
            out.push(92);
            out.push(117);
            out.push(48);
            out.push(48);
            out.push(if hi < 10 { 48 + hi } else { 55 + hi });
            out.push(if lo < 10 { 48 + lo } else { 55 + lo });
        } else {
            out.push(b);
        }
        proof {
            assert(out@ =~= o0 + json_escape_byte(b));
            assert(s@.subrange(0, i + 1).drop_last() =~= s@.subrange(0, i as int));
            assert(out@ =~= start + json_escape(s@.subrange(0, i + 1)));
        }
        i += 1;
    }
    proof {
        assert(s@.subrange(0, s@.len() as int) =~= s@);
    }
}

/// Body of a successful login for the user `name`.
pub open spec fn login_body(name: Seq<u8>) -> Seq<u8> {
    "{\"message\":\"Login successful\",\"user\":\"".spec_bytes() + json_escape(name)
        + "\"}".spec_bytes()
}

impl UserStore {
    pub closed spec fn view(&self) -> Seq<UserView> {
        self.users@.map_values(|u: User| (u.username@, u.email@, u.password@))
    }

    /// No two accounts share a user name or an email.
    pub closed spec fn wf(&self) -> bool {
        forall|i: int, j: int|
            0 <= i < j < self.view().len() ==> (#[trigger] self.view()[i]).0 != (
            #[trigger] self.view()[j]).0 && self.view()[i].1 != self.view()[j].1
    }

    /// Whether an account has this user name or this email.
    pub open spec fn taken(&self, username: Seq<u8>, email: Seq<u8>) -> bool {
        exists|i: int|
            0 <= i < self.view().len() && ((#[trigger] self.view()[i]).0 == username
                || self.view()[i].1 == email)
    }

    /// Whether an account has this user name and this password.
    pub open spec fn accepts(&self, username: Seq<u8>, password: Seq<u8>) -> bool {
        exists|i: int|
            0 <= i < self.view().len() && (#[trigger] self.view()[i]).0 == username
                && self.view()[i].2 == password
    }

    /// A store without accounts.
    pub fn new() -> (r: UserStore)
        ensures
            r.wf(),
            r.view().len() == 0,
    {
        let r = UserStore { users: Vec::new() };
        proof {
            assert(r.view() =~= Seq::<UserView>::empty());
        }
        r
    }

    /// Registration: 400 for a missing body or field, an email without `@`
    /// and `.`, or a password under six bytes; 409 where the user name or
    /// email is taken; else the account is added and 201 returned.
    #[verifier::loop_isolation(false)]
    pub fn register(&mut self, form: Option<RegisterForm>) -> (r: Response)
        requires
            old(self).wf(),
        ensures
            final(self).wf(),
            r.content_type == JSON,
            match form {
                None => r.status == 400 && r.body@ == INVALID_JSON.spec_bytes()
                    && final(self).view() == old(self).view(),
                Some(f) => if f.username@.len() == 0 || f.email@.len() == 0 || f.password@.len()
                    == 0 {
                    r.status == 400 && r.body@ == REGISTER_MISSING.spec_bytes()
                        && final(self).view() == old(self).view()
                } else if !email_shaped(f.email@) {
                    r.status == 400 && r.body@ == INVALID_EMAIL.spec_bytes()
                        && final(self).view() == old(self).view()
                } else if f.password@.len() < MIN_PASSWORD {
                    r.status == 400 && r.body@ == SHORT_PASSWORD.spec_bytes()
                        && final(self).view() == old(self).view()
                } else if old(self).taken(f.username@, f.email@) {
                    r.status == 409 && r.body@ == USER_EXISTS.spec_bytes()
                        && final(self).view() == old(self).view()
                } else {
                    r.status == 201 && r.body@ == REGISTERED.spec_bytes() && final(self).view()
                        == old(self).view().push((f.username@, f.email@, f.password@))
                },
            },
    {
        let f = match form {
            None => {
                return json_response(400, INVALID_JSON);
            },
            Some(f) => f,
        };
        if f.username.len() == 0 || f.email.len() == 0 || f.password.len() == 0 {
            return json_response(400, REGISTER_MISSING);
        }
        if !holds_byte(f.email.as_slice(), 64) || !holds_byte(f.email.as_slice(), 46) {
            return json_response(400, INVALID_EMAIL);
        }
        if f.password.len() < MIN_PASSWORD {
            return json_response(400, SHORT_PASSWORD);
        }
        let mut i: usize = 0;
        while i < self.users.len()
            invariant
                i <= self.users@.len(),
                self.view().len() == self.users@.len(),
                forall|j: int|
                    0 <= j < i ==> (#[trigger] self.view()[j]).0 != f.username@ && self.view()[j].1
                        != f.email@,
            decreases self.users@.len() - i,
        {
            let u = &self.users[i];
            proof {
                assert(self.view()[i as int] == (u.username@, u.email@, u.password@));
            }
            if bytes_eq(u.username.as_slice(), f.username.as_slice()) || bytes_eq(
                u.email.as_slice(),
                f.email.as_slice(),
            ) {
                return json_response(409, USER_EXISTS);
            }
            i += 1;
        }
        let ghost v0 = self.view();
        let ghost entry = (f.username@, f.email@, f.password@);
        self.users.push(User { username: f.username, email: f.email, password: f.password });
        proof {
            assert(self.view() =~= v0.push(entry));
        }
        json_response(201, REGISTERED)
    }

    /// Login: 400 for a missing body or field; 200 with the user name where
    /// an account has that user name and password; else 401.
    #[verifier::loop_isolation(false)]
    pub fn login(&self, form: Option<LoginForm>) -> (r: Response)
        ensures
            r.content_type == JSON,
            match form {
                None => r.status == 400 && r.body@ == INVALID_JSON.spec_bytes(),
                Some(f) => if f.username@.len() == 0 || f.password@.len() == 0 {
                    r.status == 400 && r.body@ == LOGIN_MISSING.spec_bytes()
                } else if self.accepts(f.username@, f.password@) {
                    r.status == 200 && r.body@ == login_body(f.username@)
                } else {
                    r.status == 401 && r.body@ == BAD_LOGIN.spec_bytes()
                },
            },
    {
        let f = match form {
            None => {
                return json_response(400, INVALID_JSON);
            },
            Some(f) => f,
        };
        if f.username.len() == 0 || f.password.len() == 0 {
            return json_response(400, LOGIN_MISSING);
        }
        let mut i: usize = 0;
        while i < self.users.len()
            invariant
                i <= self.users@.len(),
                self.view().len() == self.users@.len(),
                forall|j: int|
                    0 <= j < i ==> !((#[trigger] self.view()[j]).0 == f.username@
                        && self.view()[j].2 == f.password@),
            decreases self.users@.len() - i,
        {
            let u = &self.users[i];
            proof {
                assert(self.view()[i as int] == (u.username@, u.email@, u.password@));
            }
            if bytes_eq(u.username.as_slice(), f.username.as_slice()) && bytes_eq(
                u.password.as_slice(),
                f.password.as_slice(),
            ) {
                let mut body: Vec<u8> = Vec::new();
                push_str(&mut body, "{\"message\":\"Login successful\",\"user\":\"");
                push_json_escaped(&mut body, f.username.as_slice());
                push_str(&mut body, "\"}");
                return Response {
                    status: 200,
                    content_type: JSON,
                    cache_control: Some(NO_STORE_JSON),
                    body,
                };
            }
            i += 1;
        }
        json_response(401, BAD_LOGIN)
    }
}

} // verus!
