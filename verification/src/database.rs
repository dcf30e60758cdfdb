//! The database connection configuration.
//!
//! The library never talks to a database itself; it computes the connection
//! parameters — the port from a compose-file port binding, the option string
//! for the client — and a surrounding program does the I/O.

use vstd::prelude::*;
use crate::errors::TypeMismatchError;
use crate::numparse::{dec_val, parse_usize_from_str, unsigned_digits};
use crate::strutil::{dec_digits, usize_to_string};

verus! {

/// Which of the two configured databases to use.
#[derive(Debug, PartialEq, Eq, Structural, Clone, Copy)]
pub enum Environment {
    Prod,
    Test,
}

/// The parameters a database client connects with.
#[derive(Debug, PartialEq)]
pub struct DatabaseService {
    pub user: String,
    pub password: String,
    pub db_name: String,
    pub port: usize,
}

/// The host-side part of a compose-file port binding: everything before the
/// first `:`, or the whole text where no `:` occurs.
pub open spec fn binding_host_part(s: Seq<char>) -> Seq<char> {
    match crate::numparse::first_index_of(s, ':') {
        Some(i) => s.take(i),
        None => s,
    }
}

/// Reads the host port out of a compose-file port binding such as
/// `5432:5432`: the part before the first `:`, parsed as a decimal count.
pub fn parse_port_binding(binding: &str) -> (r: Result<usize, TypeMismatchError>)
    ensures
        match r {
            Ok(p) => {
                &&& unsigned_digits(binding_host_part(binding@)) matches Some(digits)
                &&& dec_val(unsigned_digits(binding_host_part(binding@)).unwrap()) == p
            },
            Err(e) => e.got@ == binding_host_part(binding@),
        },
{
    let chars = crate::strutil::to_chars(binding);
    let n = chars.len();
    let mut cut: usize = n;
    let mut i: usize = 0;
    while i < n
        invariant
            i <= n,
            n == chars@.len(),
            cut == n || (cut < i && chars@[cut as int] == ':'),
            forall|j: int| 0 <= j < i && j < cut ==> chars@[j] != ':',
            cut == n ==> i <= cut,
        decreases n - i,
    {
        if cut == n && chars[i] == ':' {
            cut = i;
        }
        i = i + 1;
    }
    proof {
        crate::numparse::lemma_first_index_of(chars@, ':');
        let fi = crate::numparse::first_index_of(chars@, ':');
        if cut < n {
            if fi is None {
                assert(false);
            } else {
                let i0 = fi.unwrap();
                if i0 < cut {
                    assert(chars@[i0] == ':');
                    assert(false);
                }
                if i0 > cut {
                    assert(chars@[cut as int] != ':');
                    assert(false);
                }
            }
            assert(binding_host_part(binding@) == chars@.take(cut as int));
        } else {
            assert(fi is None);
            assert(binding_host_part(binding@) == chars@);
            assert(chars@.take(cut as int) =~= chars@);
        }
    }
    let head = crate::frame::chars_range(chars.as_slice(), 0, cut);
    proof {
        assert(head@ =~= chars@.take(cut as int));
    }
    let head_string = crate::strutil::from_chars(&head);
    parse_usize_from_str(head_string.as_str())
}

/// The client option string for a configuration.
pub open spec fn connection_string_of(
    user: Seq<char>,
    password: Seq<char>,
    db_name: Seq<char>,
    port: nat,
) -> Seq<char> {
    "host=0.0.0.0 user="@ + user + " password="@ + password + " dbname="@ + db_name + " port="@
        + dec_digits(port)
}

impl DatabaseService {
    /// Builds the configuration from its plain parts; reading them out of a
    /// compose file is the surrounding program's business.
    pub fn new(user: String, password: String, db_name: String, port: usize) -> (r:
        DatabaseService)
        ensures
            r.user == user,
            r.password == password,
            r.db_name == db_name,
            r.port == port,
    {
        DatabaseService { user, password, db_name, port }
    }

    /// Renders the option string a client connects with.
    pub fn connection_string(&self) -> (r: String)
        ensures
            r@ == connection_string_of(self.user@, self.password@, self.db_name@, self.port as nat),
    {
        let mut r = String::from_str("host=0.0.0.0 user=");
        r.append(self.user.as_str());
        r.append(" password=");
        r.append(self.password.as_str());
        r.append(" dbname=");
        r.append(self.db_name.as_str());
        r.append(" port=");
        let port_text = usize_to_string(self.port);
        r.append(port_text.as_str());
        proof {
            reveal_strlit("host=0.0.0.0 user=");
            reveal_strlit(" password=");
            reveal_strlit(" dbname=");
            reveal_strlit(" port=");
            assert(r@ =~= connection_string_of(
                self.user@,
                self.password@,
                self.db_name@,
                self.port as nat,
            ));
        }
        r
    }
}

} // verus!
