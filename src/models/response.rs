//! The owned response value.
use vstd::prelude::*;
use vstd::string::*;
use crate::models::body::{HttpBody, PossibleHttpBody};
use crate::models::headers::{HttpHeader, key_index, header_position, put_header, header_set};

verus! {

/// An HTTP response with owned parts.
#[derive(Debug, Clone)]
pub struct HttpResponse {
    pub status_code: HttpStatusCode,
    pub headers: Vec<HttpHeader>,
    pub body: PossibleHttpBody,
}

impl HttpResponse {
    /// A response with `status_cdoe`, `headers` and a copy of `body`.
    pub fn new(
        status_cdoe: HttpStatusCode,
        headers: Vec<HttpHeader>,
        body: Option<&str>,
    ) -> (r: Self)
        ensures
            r.status_code == status_cdoe,
            r.headers@ == headers@,
            match body {
                Some(t) => r.body matches Some(s) && s@ == t@,
                None => r.body is None,
            },
    {
        let body = match body {
            Some(b) => Some(b.to_owned()),
            None => None,
        };
        Self { status_code: status_cdoe, headers, body }
    }

    /// The headers, in order.
    pub fn headers(&self) -> (r: &Vec<HttpHeader>)
        ensures
            r@ == self.headers@,
    {
        &self.headers
    }

    /// The first header whose key is `key`.
    pub fn get_header(&self, key: &str) -> (r: Option<&HttpHeader>)
        ensures
            match key_index(self.headers@, key@) {
                Some(i) => r == Some(&self.headers@[i]),
                None => r is None,
            },
    {
        match header_position(&self.headers, key) {
            Some(i) => Some(&self.headers[i]),
            None => None,
        }
    }

    /// Set or update header by key.
    pub fn set_header(&mut self, key: &str, value: &str)
        ensures
            header_set(old(self).headers@, final(self).headers@, key@, value@),
            final(self).status_code == old(self).status_code,
            final(self).body == old(self).body,
    {
        put_header(&mut self.headers, key, value);
    }

    /// The first header whose key is `key`, to change in place.
    pub fn get_header_mut(&mut self, key: &str) -> (r: Option<&mut HttpHeader>)
        ensures
            final(self).status_code == old(self).status_code,
            final(self).body == old(self).body,
            match key_index(old(self).headers@, key@) {
                Some(i) => r matches Some(h) && *h == old(self).headers@[i]
                    && final(self).headers@ == old(self).headers@.update(i, *final(h)),
                None => r is None && final(self).headers@ == old(self).headers@,
            },
    {
        match header_position(&self.headers, key) {
            Some(i) => Some(&mut self.headers[i]),
            None => None,
        }
    }
}

impl HttpBody for HttpResponse {
    fn get_body(&self) -> (r: &PossibleHttpBody)
        ensures
            *r == self.body,
    {
        &self.body
    }

    fn set_body(&mut self, value: PossibleHttpBody)
        ensures
            final(self).body == value,
            final(self).status_code == old(self).status_code,
            final(self).headers == old(self).headers,
    {
        self.body = value;
    }
}

/// The decimal digit `d` as a character.
pub open spec fn digit_char(d: int) -> char {
    if d == 0 {
        '0'
    } else if d == 1 {
        '1'
    } else if d == 2 {
        '2'
    } else if d == 3 {
        '3'
    } else if d == 4 {
        '4'
    } else if d == 5 {
        '5'
    } else if d == 6 {
        '6'
    } else if d == 7 {
        '7'
    } else if d == 8 {
        '8'
    } else {
        '9'
    }
}

/// The decimal digits of `n`, without leading zeros.
pub open spec fn decimal(n: nat) -> Seq<char>
    decreases n,
{
    if n < 10 {
        seq![digit_char(n as int)]
    } else {
        decimal(n / 10) + seq![digit_char((n % 10) as int)]
    }
}

fn digit_text(d: u16) -> (r: &'static str)
    requires
        d < 10,
    ensures
        r@ == seq![digit_char(d as int)],
{
    proof {
        reveal_strlit("0");
        reveal_strlit("1");
        reveal_strlit("2");
        reveal_strlit("3");
        reveal_strlit("4");
        reveal_strlit("5");
        reveal_strlit("6");
        reveal_strlit("7");
        reveal_strlit("8");
        reveal_strlit("9");
    }
    let r = if d == 0 {
        "0"
    } else if d == 1 {
        "1"
    } else if d == 2 {
        "2"
    } else if d == 3 {
        "3"
    } else if d == 4 {
        "4"
    } else if d == 5 {
        "5"
    } else if d == 6 {
        "6"
    } else if d == 7 {
        "7"
    } else if d == 8 {
        "8"
    } else {
        "9"
    };
    assert(r@ =~= seq![digit_char(d as int)]);
    r
}

fn decimal_text(n: u16) -> (r: String)
    ensures
        r@ == decimal(n as nat),
    decreases n,
{
    let digit = digit_text(n % 10);
    if n < 10 {
        digit.to_owned()
    } else {
        let mut s = decimal_text(n / 10);
        s.append(digit);
        s
    }
}

/// An HTTP status code.
#[derive(Debug, Clone, PartialEq)]
pub struct HttpStatusCode(u16);

impl HttpStatusCode {
    /// The code.
    pub closed spec fn spec_code(&self) -> u16 {
        self.0
    }

    /// The status code `status_code`.
    pub fn new(status_code: u16) -> (r: Self)
        ensures
            r.spec_code() == status_code,
    {
        Self(status_code)
    }

    /// The code.
    pub fn code(&self) -> (r: u16)
        ensures
            r == self.spec_code(),
    {
        self.0
    }

    /// The code in decimal.
    pub fn to_string(&self) -> (r: String)
        ensures
            r@ == decimal(self.spec_code() as nat),
    {
        decimal_text(self.0)
    }
}

impl From<u16> for HttpStatusCode {
    fn from(value: u16) -> (r: Self)
        ensures
            r.spec_code() == value,
    {
        HttpStatusCode(value)
    }
}

impl vstd::std_specs::convert::FromSpecImpl<u16> for HttpStatusCode {
    open spec fn obeys_from_spec() -> bool {
        false
    }

    open spec fn from_spec(v: u16) -> Self {
        arbitrary()
    }
}

} // verus!
