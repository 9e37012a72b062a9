use vstd::prelude::*;

verus! {

/// Why a configuration value could not be had.
#[derive(Debug, Clone, Copy, PartialEq, Eq)]
pub enum ConfigError {
    /// No entry for the key.
    Missing(&'static str),
    /// The entry for the key is not a number of the expected range.
    Invalid(&'static str),
}

/// The value of the last entry with the key, if any.
pub open spec fn value_in(entries: Seq<(String, String)>, key: Seq<char>) -> Option<Seq<char>>
    decreases entries.len(),
{
    if entries.len() == 0 {
        None
    } else if entries.last().0@ == key {
        Some(entries.last().1@)
    } else {
        value_in(entries.drop_last(), key)
    }
}

pub open spec fn is_digit(c: char) -> bool {
    '0' <= c <= '9'
}

/// Value of a string of decimal digits.
pub open spec fn digits_value(s: Seq<char>) -> nat
    decreases s.len(),
{
    if s.len() == 0 {
        0
    } else {
        digits_value(s.drop_last()) * 10 + (s.last() as nat - '0' as nat) as nat
    }
}

/// The digits of decimal text for an unsigned number: an optional `+`, then at least
/// one digit.
pub open spec fn unsigned_digits(s: Seq<char>) -> Seq<char> {
    if s.len() > 0 && s[0] == '+' {
        s.subrange(1, s.len() as int)
    } else {
        s
    }
}

pub open spec fn is_unsigned_text(s: Seq<char>) -> bool {
    let d = unsigned_digits(s);
    d.len() > 0 && forall|i: int| 0 <= i < d.len() ==> is_digit(#[trigger] d[i])
}

/// What parsing decimal text as an unsigned number no larger than `max` gives.
pub open spec fn parsed_unsigned(s: Seq<char>, max: nat) -> Option<nat> {
    if is_unsigned_text(s) && digits_value(unsigned_digits(s)) <= max {
        Some(digits_value(unsigned_digits(s)))
    } else {
        None
    }
}

/// Decimal text of a number, without leading zeros.
pub open spec fn decimal_text(n: nat) -> Seq<char>
    decreases n,
{
    if n < 10 {
        seq![('0' as u8 + n as u8) as char]
    } else {
        decimal_text(n / 10) + seq![('0' as u8 + (n % 10) as u8) as char]
    }
}

proof fn lemma_digits_prefix(s: Seq<char>, i: int)
    requires
        0 <= i <= s.len(),
        forall|k: int| 0 <= k < s.len() ==> is_digit(#[trigger] s[k]),
    ensures
        digits_value(s) >= digits_value(s.subrange(0, i)),
    decreases s.len(),
{
    if i < s.len() {
        let t = s.drop_last();
        assert(t.subrange(0, i) =~= s.subrange(0, i));
        assert forall|k: int| 0 <= k < t.len() implies is_digit(#[trigger] t[k]) by {
            assert(t[k] == s[k]);
        }
        lemma_digits_prefix(t, i);
    } else {
        assert(s.subrange(0, i) =~= s);
    }
}

fn str_equal(a: &str, b: &str) -> (r: bool)
    ensures
        r == (a@ == b@),
{
    let n = a.unicode_len();
    if n != b.unicode_len() {
        return false;
    }
    let mut i: usize = 0;
    while i < n
        invariant
            n == a@.len() == b@.len(),
            i <= n,
            forall|k: int| 0 <= k < i ==> a@[k] == b@[k],
        decreases n - i,
    {
        if a.get_char(i) != b.get_char(i) {
            return false;
        }
        i = i + 1;
    }
    assert(a@ =~= b@);
    true
}

/// Parses decimal text as an unsigned number no larger than `max`.
pub fn parse_unsigned(s: &str, max: u64) -> (r: Option<u64>)
    ensures
        r is Some <==> parsed_unsigned(s@, max as nat) is Some,
        r is Some ==> r->Some_0 as nat == parsed_unsigned(s@, max as nat)->Some_0,
{
    let n = s.unicode_len();
    let mut start: usize = 0;
    if n > 0 && s.get_char(0) == '+' {
        start = 1;
    }
    let ghost d = unsigned_digits(s@);
    assert(d =~= s@.subrange(start as int, n as int));
    if start >= n {
        return None;
    }
    let mut v: u64 = 0;
    let mut i: usize = start;
    while i < n
        invariant
            n == s@.len(),
            start <= i <= n,
            d == s@.subrange(start as int, n as int),
            d == unsigned_digits(s@),
            forall|k: int| 0 <= k < i - start ==> is_digit(#[trigger] d[k]),
            v as nat == digits_value(d.subrange(0, i - start)),
        decreases n - i,
    {
        let c = s.get_char(i);
        assert(d[i - start] == c);
        if !('0' <= c && c <= '9') {
            assert(!is_digit(d[i - start]));
            return None;
        }
        let digit = (c as u32 - '0' as u32) as u64;
        let ghost p = d.subrange(0, i - start + 1);
        assert(p.drop_last() =~= d.subrange(0, i - start));
        let next = match v.checked_mul(10) {
            Some(m) => m.checked_add(digit),
            None => None,
        };
        match next {
            Some(x) => {
                v = x;
            },
            None => {
                proof {
                    assert(p.last() == c);
                    assert(digits_value(p) == v * 10 + digit);
                    if is_unsigned_text(s@) {
                        lemma_digits_prefix(d, i - start + 1);
                    }
                }
                return None;
            },
        }
        i = i + 1;
    }
    assert(d.subrange(0, n - start) =~= d);
    if v > max {
        return None;
    }
    Some(v)
}

fn digit_str(d: u64) -> (r: &'static str)
    requires
        d < 10,
    ensures
        r@ == seq![('0' as u8 + d as u8) as char],
{
    let digits = "0123456789";
    proof {
        reveal_strlit("0123456789");
    }
    let r = digits.substring_ascii(d as usize, d as usize + 1);
    assert(r@ =~= seq![('0' as u8 + d as u8) as char]);
    r
}

/// Appends the decimal text of a number.
pub fn append_decimal(s: &mut String, n: u64)
    ensures
        final(s)@ == old(s)@ + decimal_text(n as nat),
    decreases n,
{
    if n >= 10 {
        append_decimal(s, n / 10);
    }
    s.append(digit_str(n % 10));
    proof {
        if n >= 10 {
            assert(decimal_text(n as nat) == decimal_text((n / 10) as nat) + seq![
                ('0' as u8 + (n % 10) as u8) as char,
            ]);
        }
    }
    assert(s@ =~= old(s)@ + decimal_text(n as nat));
}

/// Settings by key, read once at startup. When a key occurs more than once, its last
/// entry counts.
pub struct Config {
    data: Vec<(String, String)>,
}

impl View for Config {
    type V = Seq<(String, String)>;

    closed spec fn view(&self) -> Seq<(String, String)> {
        self.data@
    }
}

impl Config {
    pub fn new(data: Vec<(String, String)>) -> (r: Config)
        ensures
            r@ == data@,
    {
        Config { data }
    }

    /// The value of the key.
    pub fn text(&self, key: &'static str) -> (r: Result<&str, ConfigError>)
        ensures
            r is Ok <==> value_in(self@, key@) is Some,
            r is Ok ==> r->Ok_0@ == value_in(self@, key@)->Some_0,
            r is Err ==> r->Err_0 == ConfigError::Missing(key),
    {
        let mut i: usize = self.data.len();
        assert(self@.subrange(0, self@.len() as int) =~= self@);
        while i > 0
            invariant
                i <= self@.len(),
                self@ == self.data@,
                value_in(self@, key@) == value_in(self@.subrange(0, i as int), key@),
            decreases i,
        {
            let ghost p = self@.subrange(0, i as int);
            assert(p.drop_last() =~= self@.subrange(0, i - 1));
            if str_equal(self.data[i - 1].0.as_str(), key) {
                return Ok(self.data[i - 1].1.as_str());
            }
            i = i - 1;
        }
        Err(ConfigError::Missing(key))
    }

    /// The value of the key as an unsigned number no larger than `max`.
    pub fn number(&self, key: &'static str, max: u64) -> (r: Result<u64, ConfigError>)
        ensures
            value_in(self@, key@) is None ==> r == Err::<u64, ConfigError>(ConfigError::Missing(key)),
            value_in(self@, key@) is Some ==> match parsed_unsigned(
                value_in(self@, key@)->Some_0,
                max as nat,
            ) {
                Some(v) => r == Ok::<u64, ConfigError>(v as u64),
                None => r == Err::<u64, ConfigError>(ConfigError::Invalid(key)),
            },
    {
        let t = match self.text(key) {
            Ok(t) => t,
            Err(e) => return Err(e),
        };
        match parse_unsigned(t, max) {
            Some(v) => Ok(v),
            None => Err(ConfigError::Invalid(key)),
        }
    }

    pub fn get_mongo_url(&self) -> (r: Result<&str, ConfigError>)
        ensures
            r is Ok <==> value_in(self@, "MONGO_URL"@) is Some,
            r is Ok ==> r->Ok_0@ == value_in(self@, "MONGO_URL"@)->Some_0,
    {
        self.text("MONGO_URL")
    }

    pub fn get_credentials_collection_name(&self) -> (r: Result<&str, ConfigError>)
        ensures
            r is Ok <==> value_in(self@, "CREDENTIALS_COLLECTION_NAME"@) is Some,
            r is Ok ==> r->Ok_0@ == value_in(self@, "CREDENTIALS_COLLECTION_NAME"@)->Some_0,
    {
        self.text("CREDENTIALS_COLLECTION_NAME")
    }

    pub fn get_requests_collection_name(&self) -> (r: Result<&str, ConfigError>)
        ensures
            r is Ok <==> value_in(self@, "REQUESTS_COLLECTION_NAME"@) is Some,
            r is Ok ==> r->Ok_0@ == value_in(self@, "REQUESTS_COLLECTION_NAME"@)->Some_0,
    {
        self.text("REQUESTS_COLLECTION_NAME")
    }

    pub fn get_api_url(&self) -> (r: Result<&str, ConfigError>)
        ensures
            r is Ok <==> value_in(self@, "API_URL"@) is Some,
            r is Ok ==> r->Ok_0@ == value_in(self@, "API_URL"@)->Some_0,
    {
        self.text("API_URL")
    }

    pub fn get_type(&self) -> (r: Result<&str, ConfigError>)
        ensures
            r is Ok <==> value_in(self@, "TYPE"@) is Some,
            r is Ok ==> r->Ok_0@ == value_in(self@, "TYPE"@)->Some_0,
    {
        self.text("TYPE")
    }

    pub fn get_statuses_collection_name(&self) -> (r: Result<&str, ConfigError>)
        ensures
            r is Ok <==> value_in(self@, "STATUSES_COLLECTION_NAME"@) is Some,
            r is Ok ==> r->Ok_0@ == value_in(self@, "STATUSES_COLLECTION_NAME"@)->Some_0,
    {
        self.text("STATUSES_COLLECTION_NAME")
    }

    pub fn get_oracle_manager_contract_name(&self) -> (r: Result<&str, ConfigError>)
        ensures
            r is Ok <==> value_in(self@, "ORACLE_MANAGER_CONTRACT_NAME"@) is Some,
            r is Ok ==> r->Ok_0@ == value_in(self@, "ORACLE_MANAGER_CONTRACT_NAME"@)->Some_0,
    {
        self.text("ORACLE_MANAGER_CONTRACT_NAME")
    }

    pub fn get_private_key(&self) -> (r: Result<&str, ConfigError>)
        ensures
            r is Ok <==> value_in(self@, "PRIVATE_KEY"@) is Some,
            r is Ok ==> r->Ok_0@ == value_in(self@, "PRIVATE_KEY"@)->Some_0,
    {
        self.text("PRIVATE_KEY")
    }

    pub fn get_server_port(&self) -> (r: Result<&str, ConfigError>)
        ensures
            r is Ok <==> value_in(self@, "SERVER_PORT"@) is Some,
            r is Ok ==> r->Ok_0@ == value_in(self@, "SERVER_PORT"@)->Some_0,
    {
        self.text("SERVER_PORT")
    }

    pub fn get_solidity_http_rpc_url(&self) -> (r: Result<&str, ConfigError>)
        ensures
            r is Ok <==> value_in(self@, "SOLIDITY_RPC_URL"@) is Some,
            r is Ok ==> r->Ok_0@ == value_in(self@, "SOLIDITY_RPC_URL"@)->Some_0,
    {
        self.text("SOLIDITY_RPC_URL")
    }

    pub fn get_solidity_ws_rpc_url(&self) -> (r: Result<&str, ConfigError>)
        ensures
            r is Ok <==> value_in(self@, "SOLIDITY_WS_RPC_URL"@) is Some,
            r is Ok ==> r->Ok_0@ == value_in(self@, "SOLIDITY_WS_RPC_URL"@)->Some_0,
    {
        self.text("SOLIDITY_WS_RPC_URL")
    }

    pub fn get_solidity_artifacts_path(&self) -> (r: Result<&str, ConfigError>)
        ensures
            r is Ok <==> value_in(self@, "SOLIDITY_ARTIFACTS_PATH"@) is Some,
            r is Ok ==> r->Ok_0@ == value_in(self@, "SOLIDITY_ARTIFACTS_PATH"@)->Some_0,
    {
        self.text("SOLIDITY_ARTIFACTS_PATH")
    }

    pub fn get_solidity_deployment_path(&self) -> (r: Result<&str, ConfigError>)
        ensures
            r is Ok <==> value_in(self@, "SOLIDITY_DEPLOYMENT_PATH"@) is Some,
            r is Ok ==> r->Ok_0@ == value_in(self@, "SOLIDITY_DEPLOYMENT_PATH"@)->Some_0,
    {
        self.text("SOLIDITY_DEPLOYMENT_PATH")
    }

    pub fn get_oracle_domain(&self) -> (r: Result<&str, ConfigError>)
        ensures
            r is Ok <==> value_in(self@, "ORACLE_DOMAIN"@) is Some,
            r is Ok ==> r->Ok_0@ == value_in(self@, "ORACLE_DOMAIN"@)->Some_0,
    {
        self.text("ORACLE_DOMAIN")
    }

    pub fn get_api_port(&self) -> (r: Result<u16, ConfigError>)
        ensures
            r is Ok <==> value_in(self@, "API_PORT"@) is Some && parsed_unsigned(
                value_in(self@, "API_PORT"@)->Some_0,
                0xffff,
            ) is Some,
            r is Ok ==> r->Ok_0 as nat == parsed_unsigned(
                value_in(self@, "API_PORT"@)->Some_0,
                0xffff,
            )->Some_0,
    {
        match self.number("API_PORT", 0xffff) {
            Ok(v) => Ok(v as u16),
            Err(e) => Err(e),
        }
    }

    pub fn get_id(&self) -> (r: Result<u8, ConfigError>)
        ensures
            r is Ok <==> value_in(self@, "ID"@) is Some && parsed_unsigned(
                value_in(self@, "ID"@)->Some_0,
                0xff,
            ) is Some,
            r is Ok ==> r->Ok_0 as nat == parsed_unsigned(value_in(self@, "ID"@)->Some_0, 0xff)->Some_0,
    {
        match self.number("ID", 0xff) {
            Ok(v) => Ok(v as u8),
            Err(e) => Err(e),
        }
    }

    pub fn get_confirmations(&self) -> (r: Result<u64, ConfigError>)
        ensures
            r is Ok <==> value_in(self@, "CONFIRMATIONS"@) is Some && parsed_unsigned(
                value_in(self@, "CONFIRMATIONS"@)->Some_0,
                0xffff_ffff_ffff_ffff,
            ) is Some,
            r is Ok ==> r->Ok_0 as nat == parsed_unsigned(
                value_in(self@, "CONFIRMATIONS"@)->Some_0,
                0xffff_ffff_ffff_ffff,
            )->Some_0,
    {
        self.number("CONFIRMATIONS", 0xffff_ffff_ffff_ffff)
    }

    pub fn get_chain_id(&self) -> (r: Result<u64, ConfigError>)
        ensures
            r is Ok <==> value_in(self@, "CHAIN_ID"@) is Some && parsed_unsigned(
                value_in(self@, "CHAIN_ID"@)->Some_0,
                0xffff_ffff_ffff_ffff,
            ) is Some,
            r is Ok ==> r->Ok_0 as nat == parsed_unsigned(
                value_in(self@, "CHAIN_ID"@)->Some_0,
                0xffff_ffff_ffff_ffff,
            )->Some_0,
    {
        self.number("CHAIN_ID", 0xffff_ffff_ffff_ffff)
    }

    pub fn get_waiting_interval(&self) -> (r: Result<u64, ConfigError>)
        ensures
            r is Ok <==> value_in(self@, "WAITING_INTERVAL"@) is Some && parsed_unsigned(
                value_in(self@, "WAITING_INTERVAL"@)->Some_0,
                0xffff_ffff_ffff_ffff,
            ) is Some,
            r is Ok ==> r->Ok_0 as nat == parsed_unsigned(
                value_in(self@, "WAITING_INTERVAL"@)->Some_0,
                0xffff_ffff_ffff_ffff,
            )->Some_0,
    {
        self.number("WAITING_INTERVAL", 0xffff_ffff_ffff_ffff)
    }

    /// The node's name: its type, an underscore, and its id in decimal.
    pub fn get_name(&self) -> (r: Result<String, ConfigError>)
        ensures
            r is Ok <==> value_in(self@, "TYPE"@) is Some && value_in(self@, "ID"@) is Some
                && parsed_unsigned(value_in(self@, "ID"@)->Some_0, 0xff) is Some,
            r is Ok ==> r->Ok_0@ == value_in(self@, "TYPE"@)->Some_0 + "_"@ + decimal_text(
                parsed_unsigned(value_in(self@, "ID"@)->Some_0, 0xff)->Some_0,
            ),
    {
        let kind = match self.get_type() {
            Ok(t) => t,
            Err(e) => return Err(e),
        };
        let id = match self.get_id() {
            Ok(id) => id,
            Err(e) => return Err(e),
        };
        let mut name = String::from_str(kind);
        name.append("_");
        append_decimal(&mut name, id as u64);
        Ok(name)
    }

    /// Name of the node's database: the node's name.
    pub fn get_db_name(&self) -> (r: Result<String, ConfigError>)
        ensures
            r is Ok <==> value_in(self@, "TYPE"@) is Some && value_in(self@, "ID"@) is Some
                && parsed_unsigned(value_in(self@, "ID"@)->Some_0, 0xff) is Some,
            r is Ok ==> r->Ok_0@ == value_in(self@, "TYPE"@)->Some_0 + "_"@ + decimal_text(
                parsed_unsigned(value_in(self@, "ID"@)->Some_0, 0xff)->Some_0,
            ),
    {
        self.get_name()
    }
}

} // verus!
