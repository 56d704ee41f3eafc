//! Configuration surface of the gateway: which transports to open and where.
//!
//! [`load_config`] parses the textual configuration format (see its doc
//! comment for the grammar); reading the file from disk is the caller's
//! concern.

use vstd::prelude::*;

verus! {

/// QUIC transport settings.
#[derive(Debug, Clone)]
pub struct QuicConfig {
    pub address: String,
    pub port: u16,
    pub cert_path: String,
    pub key_path: String,
}

/// TCP transport settings.
#[derive(Debug, Clone)]
pub struct TcpConfig {
    pub address: String,
    pub port: u16,
}

/// WebSocket transport settings.
#[derive(Debug, Clone)]
pub struct WebSocketConfig {
    pub address: String,
    pub port: u16,
    pub path: String,
}

/// The gateway configuration: each transport is optional, but the gateway
/// refuses to construct when all three are absent.
#[derive(Debug, Default, Clone)]
pub struct ServerConfig {
    pub quic: Option<QuicConfig>,
    pub tcp: Option<TcpConfig>,
    pub websocket: Option<WebSocketConfig>,
}

impl ServerConfig {
    /// At least one transport is configured.
    pub open spec fn spec_has_transport(self) -> bool {
        self.quic is Some || self.tcp is Some || self.websocket is Some
    }

    /// Executable form of [`Self::spec_has_transport`].
    pub fn has_transport(&self) -> (r: bool)
        ensures
            r == self.spec_has_transport(),
    {
        self.quic.is_some() || self.tcp.is_some() || self.websocket.is_some()
    }
}

/// One transport listener the gateway shell must open: the plain settings
/// the I/O layer needs, in the order the gateway opens them.
#[derive(Debug, Clone)]
pub enum TransportSpec {
    Tcp { address: String, port: u16 },
    WebSocket { address: String, port: u16, path: String },
    Quic { address: String, port: u16, cert_path: String, key_path: String },
}

/// The listeners a configuration asks for: the TCP channel first, then
/// WebSocket, then QUIC, each present exactly when configured.
pub open spec fn spec_transport_plan(c: ServerConfig) -> Seq<TransportSpec> {
    let tcp_part: Seq<TransportSpec> = match c.tcp {
        Some(t) => seq![TransportSpec::Tcp { address: t.address, port: t.port }],
        None => Seq::empty(),
    };
    let ws_part: Seq<TransportSpec> = match c.websocket {
        Some(w) => seq![
            TransportSpec::WebSocket { address: w.address, port: w.port, path: w.path },
        ],
        None => Seq::empty(),
    };
    let quic_part: Seq<TransportSpec> = match c.quic {
        Some(q) => seq![
            TransportSpec::Quic {
                address: q.address,
                port: q.port,
                cert_path: q.cert_path,
                key_path: q.key_path,
            },
        ],
        None => Seq::empty(),
    };
    tcp_part + ws_part + quic_part
}

/// Computes [`spec_transport_plan`]: the listeners to open for `config`.
pub fn transport_plan(config: &ServerConfig) -> (r: Vec<TransportSpec>)
    ensures
        r@ == spec_transport_plan(*config),
{
    let mut r: Vec<TransportSpec> = Vec::new();
    match &config.tcp {
        Some(t) => {
            r.push(TransportSpec::Tcp { address: t.address.clone(), port: t.port });
        },
        None => {},
    }
    match &config.websocket {
        Some(w) => {
            r.push(
                TransportSpec::WebSocket {
                    address: w.address.clone(),
                    port: w.port,
                    path: w.path.clone(),
                },
            );
        },
        None => {},
    }
    match &config.quic {
        Some(q) => {
            r.push(
                TransportSpec::Quic {
                    address: q.address.clone(),
                    port: q.port,
                    cert_path: q.cert_path.clone(),
                    key_path: q.key_path.clone(),
                },
            );
        },
        None => {},
    }
    proof {
        assert(r@ =~= spec_transport_plan(*config));
    }
    r
}

/// A character the parser strips from line ends: space, tab or carriage
/// return.
pub open spec fn is_ws(c: char) -> bool {
    c == ' ' || c == '\t' || c == '\r'
}

/// The lines of `s`, split at `'\n'`: one more line than there are
/// newlines, possibly empty.
pub open spec fn split_lines(s: Seq<char>) -> Seq<Seq<char>>
    decreases s.len(),
{
    if s.len() == 0 {
        seq![Seq::<char>::empty()]
    } else {
        let prev = split_lines(s.drop_last());
        if s.last() == '\n' {
            prev.push(Seq::<char>::empty())
        } else {
            prev.update(prev.len() - 1, prev.last().push(s.last()))
        }
    }
}

/// `split_lines` always yields at least one line.
pub proof fn lemma_split_lines_len(s: Seq<char>)
    ensures
        split_lines(s).len() >= 1,
    decreases s.len(),
{
    if s.len() > 0 {
        lemma_split_lines_len(s.drop_last());
    }
}

/// `s` with leading and trailing whitespace removed.
pub open spec fn trim(s: Seq<char>) -> Seq<char>
    decreases s.len(),
{
    if s.len() > 0 && is_ws(s[0]) {
        trim(s.drop_first())
    } else if s.len() > 0 && is_ws(s.last()) {
        trim(s.drop_last())
    } else {
        s
    }
}

/// Converts the input to its characters: `r@ == s@`.
#[verifier::loop_isolation(false)]
fn chars_of(s: &str) -> (r: Vec<char>)
    ensures
        r@ == s@,
{
    let n = s.unicode_len();
    let mut r: Vec<char> = Vec::new();
    let mut i: usize = 0;
    while i < n
        invariant
            i <= n,
            r@ == s@.take(i as int),
        decreases n - i,
    {
        r.push(s.get_char(i));
        proof {
            assert(r@ =~= s@.take(i + 1));
        }
        i += 1;
    }
    proof {
        assert(s@.take(n as int) =~= s@);
    }
    r
}

/// Finds the line boundaries of `s`: `r[j]` is the half-open character
/// range of line `j` of [`split_lines`].
#[verifier::loop_isolation(false)]
fn line_ranges(chars: &Vec<char>) -> (r: Vec<(usize, usize)>)
    ensures
        r@.len() == split_lines(chars@).len(),
        forall|j: int|
            0 <= j < r@.len() ==> {
                let (a, b) = #[trigger] r@[j];
                0 <= a <= b <= chars@.len() && chars@.subrange(a as int, b as int) == split_lines(
                    chars@,
                )[j]
            },
{
    let n = chars.len();
    let mut r: Vec<(usize, usize)> = Vec::new();
    let mut start: usize = 0;
    let mut i: usize = 0;
    while i < n
        invariant
            i <= n,
            start <= i,
            r@.len() + 1 == split_lines(chars@.take(i as int)).len(),
            forall|j: int|
                0 <= j < r@.len() ==> {
                    let (a, b) = #[trigger] r@[j];
                    0 <= a <= b <= i && chars@.subrange(a as int, b as int) == split_lines(
                        chars@.take(i as int),
                    )[j]
                },
            chars@.subrange(start as int, i as int) == split_lines(chars@.take(i as int)).last(),
        decreases n - i,
    {
        let ghost pre_split = split_lines(chars@.take(i as int));
        proof {
            assert(chars@.take(i + 1).drop_last() =~= chars@.take(i as int));
            lemma_split_lines_len(chars@.take(i as int));
        }
        if chars[i] == '\n' {
            let ghost r0 = r@;
            r.push((start, i));
            start = i + 1;
            proof {
                let post_split = split_lines(chars@.take(i + 1));
                assert(post_split =~= pre_split.push(Seq::<char>::empty()));
                assert(chars@.subrange(start as int, i + 1) =~= Seq::<char>::empty());
                assert forall|j: int| 0 <= j < r@.len() implies {
                    let (a, b) = #[trigger] r@[j];
                    0 <= a <= b <= i + 1 && chars@.subrange(a as int, b as int) == post_split[j]
                } by {
                    if j < r@.len() - 1 {
                        assert(r@[j] == r0[j]);
                    }
                }
            }
        } else {
            proof {
                let post_split = split_lines(chars@.take(i + 1));
                let prev = pre_split;
                assert(post_split == prev.update(
                    prev.len() - 1,
                    prev.last().push(chars@[i as int]),
                ));
                assert(chars@.subrange(start as int, i + 1) =~= chars@.subrange(
                    start as int,
                    i as int,
                ).push(chars@[i as int]));
            }
        }
        i += 1;
    }
    proof {
        assert(chars@.take(n as int) =~= chars@);
        lemma_split_lines_len(chars@);
    }
    r.push((start, n));
    proof {
        let full = split_lines(chars@);
        assert(r@.last() == (start, n));
        assert forall|j: int| 0 <= j < r@.len() implies {
            let (a, b) = #[trigger] r@[j];
            0 <= a <= b <= chars@.len() && chars@.subrange(a as int, b as int) == full[j]
        } by {
            if j == r@.len() - 1 {
                assert(r@[j] == (start, n));
            }
        }
    }
    r
}

/// Trims line `[a, b)` of `chars`: the returned range holds the trimmed
/// text.
#[verifier::loop_isolation(false)]
fn trim_range(chars: &Vec<char>, a: usize, b: usize) -> (r: (usize, usize))
    requires
        a <= b <= chars@.len(),
    ensures
        a <= r.0 <= r.1 <= b,
        chars@.subrange(r.0 as int, r.1 as int) == trim(chars@.subrange(a as int, b as int)),
{
    let mut lo = a;
    let mut hi = b;
    while lo < hi && (chars[lo] == ' ' || chars[lo] == '\t' || chars[lo] == '\r')
        invariant
            a <= lo <= hi <= b,
            hi == b,
            trim(chars@.subrange(a as int, b as int)) == trim(
                chars@.subrange(lo as int, hi as int),
            ),
        decreases hi - lo,
    {
        proof {
            let cur = chars@.subrange(lo as int, hi as int);
            assert(is_ws(cur[0]));
            assert(cur.drop_first() =~= chars@.subrange(lo + 1, hi as int));
        }
        lo += 1;
    }
    while lo < hi && (chars[hi - 1] == ' ' || chars[hi - 1] == '\t' || chars[hi - 1] == '\r')
        invariant
            a <= lo <= hi <= b,
            lo < hi ==> !is_ws(chars@[lo as int]),
            trim(chars@.subrange(a as int, b as int)) == trim(
                chars@.subrange(lo as int, hi as int),
            ),
        decreases hi - lo,
    {
        proof {
            let cur = chars@.subrange(lo as int, hi as int);
            assert(!is_ws(cur[0]));
            assert(is_ws(cur.last()));
            assert(cur.drop_last() =~= chars@.subrange(lo as int, hi - 1));
        }
        hi -= 1;
    }
    proof {
        let cur = chars@.subrange(lo as int, hi as int);
        if lo == hi {
            assert(cur.len() == 0);
            assert(trim(cur) == cur);
        } else {
            assert(!is_ws(cur[0]));
            assert(!is_ws(cur.last()));
            assert(trim(cur) == cur);
        }
    }
    (lo, hi)
}

/// Which configuration section a header line opens.
#[derive(Clone, Copy, PartialEq, Eq, Structural, Debug)]
pub enum SectionId {
    Tcp,
    WebSocket,
    Quic,
}

/// A configuration key within a section.
#[derive(Clone, Copy, PartialEq, Eq, Structural, Debug)]
pub enum FieldId {
    Address,
    Port,
    Path,
    CertPath,
    KeyPath,
}

/// Why [`load_config`] rejected its input.
#[derive(Clone, Copy, PartialEq, Eq, Structural, Debug)]
pub enum ConfigError {
    /// A section is present but one of its required keys is not.
    MissingField { section: SectionId, field: FieldId },
    /// A section's `port` value is not a decimal port number.
    InvalidPort { section: SectionId },
}

/// A trimmed line the parser skips: empty, or a `;`/`#` comment.
pub open spec fn is_comment_or_blank(t: Seq<char>) -> bool {
    t.len() == 0 || t[0] == ';' || t[0] == '#'
}

/// A trimmed line that switches sections: it starts with `[`.
pub open spec fn is_header(t: Seq<char>) -> bool {
    t.len() > 0 && t[0] == '['
}

/// The section a header line opens; `None` for a header the parser does
/// not recognize (its pairs are ignored) and for non-header lines.
pub open spec fn header_section(t: Seq<char>) -> Option<SectionId> {
    if !is_header(t) {
        None
    } else if t == "[tcp]"@ {
        Some(SectionId::Tcp)
    } else if t == "[websocket]"@ {
        Some(SectionId::WebSocket)
    } else if t == "[quic]"@ {
        Some(SectionId::Quic)
    } else {
        None
    }
}

/// `k` is the position of the first `=` of `t`.
pub open spec fn is_first_eq(t: Seq<char>, k: int) -> bool {
    &&& 0 <= k < t.len()
    &&& t[k] == '='
    &&& forall|j: int| 0 <= j < k ==> t[j] != '='
}

/// A trimmed line that records a key: not blank, comment or header, and
/// it holds an `=`.
pub open spec fn is_pair(t: Seq<char>) -> bool {
    &&& !is_comment_or_blank(t)
    &&& !is_header(t)
    &&& exists|k: int| is_first_eq(t, k)
}

/// The position of the first `=` of `t` (meaningful when [`is_pair`]
/// holds).
pub open spec fn eq_idx(t: Seq<char>) -> int {
    choose|k: int| is_first_eq(t, k)
}

/// The key of a pair line: the trimmed text before its first `=`.
pub open spec fn pair_key(t: Seq<char>) -> Seq<char> {
    trim(t.take(eq_idx(t)))
}

/// The value of a pair line: the trimmed text after its first `=`.
pub open spec fn pair_value(t: Seq<char>) -> Seq<char> {
    trim(t.subrange(eq_idx(t) + 1, t.len() as int))
}

/// The section in effect after the first `i` lines: the one the last
/// header among them opened.
pub open spec fn section_after(lines: Seq<Seq<char>>, i: int) -> Option<SectionId>
    decreases i,
{
    if i <= 0 {
        None
    } else {
        let t = trim(lines[i - 1]);
        if is_header(t) {
            header_section(t)
        } else {
            section_after(lines, i - 1)
        }
    }
}

/// A header for `sec` appears among the first `i` lines.
pub open spec fn section_seen_upto(lines: Seq<Seq<char>>, i: int, sec: SectionId) -> bool {
    exists|j: int| 0 <= j < i && header_section(trim(#[trigger] lines[j])) == Some(sec)
}

/// The value of the last pair for `key` under a header of `sec` among the
/// first `i` lines: later pairs win.
pub open spec fn last_value_upto(
    lines: Seq<Seq<char>>,
    i: int,
    sec: SectionId,
    key: Seq<char>,
) -> Option<Seq<char>>
    decreases i,
{
    if i <= 0 {
        None
    } else {
        let t = trim(lines[i - 1]);
        if is_pair(t) && section_after(lines, i - 1) == Some(sec) && pair_key(t) == key {
            Some(pair_value(t))
        } else {
            last_value_upto(lines, i - 1, sec, key)
        }
    }
}

/// A decimal digit.
pub open spec fn is_digit(c: char) -> bool {
    48 <= c as u32 <= 57
}

/// The number the digits of `t` spell.
pub open spec fn digits_value(t: Seq<char>) -> int
    decreases t.len(),
{
    if t.len() == 0 {
        0
    } else {
        digits_value(t.drop_last()) * 10 + (t.last() as u32 - 48)
    }
}

/// Every character of `t` is a digit.
pub open spec fn all_digits(t: Seq<char>) -> bool {
    forall|j: int| 0 <= j < t.len() ==> is_digit(#[trigger] t[j])
}

/// Ten to the `n`.
pub open spec fn pow10(n: nat) -> int
    decreases n,
{
    if n == 0 {
        1
    } else {
        10 * pow10((n - 1) as nat)
    }
}

/// A digit string of length `n` spells a number below ten to the `n`.
pub proof fn lemma_digits_value_bound(t: Seq<char>)
    requires
        all_digits(t),
    ensures
        0 <= digits_value(t) < pow10(t.len()),
    decreases t.len(),
{
    if t.len() > 0 {
        assert(all_digits(t.drop_last())) by {
            assert(forall|j: int|
                0 <= j < t.len() - 1 ==> #[trigger] t.drop_last()[j] == t[j]);
        }
        lemma_digits_value_bound(t.drop_last());
        assert(is_digit(t[t.len() - 1]));
    }
}

/// The port a value spells: a string of one to five digits whose value is
/// at most 65535; anything else is rejected.
pub open spec fn spec_parse_port(t: Seq<char>) -> Option<u16> {
    if 1 <= t.len() <= 5 && all_digits(t) && digits_value(t) <= 65535 {
        Some(digits_value(t) as u16)
    } else {
        None
    }
}

/// Compares the characters `[a, b)` of `chars` with a literal.
#[verifier::loop_isolation(false)]
fn range_eq_lit(chars: &Vec<char>, a: usize, b: usize, lit: &str) -> (r: bool)
    requires
        a <= b <= chars@.len(),
    ensures
        r == (chars@.subrange(a as int, b as int) == lit@),
{
    let ghost t = chars@.subrange(a as int, b as int);
    let n = lit.unicode_len();
    if b - a != n {
        proof {
            assert(t.len() != lit@.len());
        }
        return false;
    }
    let mut k: usize = 0;
    while k < n
        invariant
            k <= n,
            n == t.len(),
            forall|j: int| 0 <= j < k ==> t[j] == lit@[j],
        decreases n - k,
    {
        if chars[a + k] != lit.get_char(k) {
            proof {
                assert(t[k as int] != lit@[k as int]);
            }
            return false;
        }
        k += 1;
    }
    proof {
        assert(t =~= lit@);
    }
    true
}

/// Finds the first `=` within characters `[a, b)` of `chars`.
#[verifier::loop_isolation(false)]
fn find_eq(chars: &Vec<char>, a: usize, b: usize) -> (r: Option<usize>)
    requires
        a <= b <= chars@.len(),
    ensures
        ({
            let t = chars@.subrange(a as int, b as int);
            match r {
                Some(e) => a <= e < b && is_first_eq(t, e - a),
                None => !(exists|k: int| is_first_eq(t, k)),
            }
        }),
{
    let ghost t = chars@.subrange(a as int, b as int);
    let mut k: usize = a;
    while k < b
        invariant
            a <= k <= b,
            forall|j: int| a <= j < k ==> chars@[j] != '=',
        decreases b - k,
    {
        if chars[k] == '=' {
            proof {
                assert(t[k - a] == '=');
                assert(forall|j: int| 0 <= j < k - a ==> t[j] == chars@[a + j] && t[j] != '=');
            }
            return Some(k);
        }
        k += 1;
    }
    proof {
        assert forall|j: int| 0 <= j < t.len() implies t[j] != '=' by {
            assert(t[j] == chars@[a + j]);
        }
    }
    None
}

/// Parses the characters `[a, b)` of `chars` as a port number, exactly as
/// [`spec_parse_port`] reads them.
#[verifier::loop_isolation(false)]
fn parse_port_range(chars: &Vec<char>, a: usize, b: usize) -> (r: Option<u16>)
    requires
        a <= b <= chars@.len(),
    ensures
        r == spec_parse_port(chars@.subrange(a as int, b as int)),
{
    let ghost t = chars@.subrange(a as int, b as int);
    let len = b - a;
    if len < 1 || len > 5 {
        return None;
    }
    let mut acc: u32 = 0;
    let mut k: usize = 0;
    while k < len
        invariant
            k <= len,
            len == t.len(),
            forall|j: int| 0 <= j < k ==> is_digit(#[trigger] t[j]),
            acc == digits_value(t.take(k as int)),
            0 <= acc <= 99999,
        decreases len - k,
    {
        let d = chars[a + k] as u32;
        if d < 48 || d > 57 {
            proof {
                assert(!is_digit(t[k as int]));
            }
            return None;
        }
        proof {
            let pre = t.take(k as int);
            assert(all_digits(pre));
            lemma_digits_value_bound(pre);
            assert(pow10(0) == 1);
            assert(pow10(1) == 10);
            assert(pow10(2) == 100);
            assert(pow10(3) == 1000);
            assert(pow10(4) == 10000);
            assert(acc <= 9999);
            assert(t.take(k + 1).drop_last() =~= pre);
            assert(t.take(k + 1).last() == t[k as int]);
        }
        acc = acc * 10 + (d - 48);
        k += 1;
    }
    proof {
        assert(t.take(len as int) =~= t);
        assert(all_digits(t));
    }
    if acc > 65535 {
        return None;
    }
    Some(acc as u16)
}

/// The abstract value of a [`TcpConfig`].
pub struct TcpConfigV {
    pub address: Seq<char>,
    pub port: u16,
}

/// The abstract value of a [`WebSocketConfig`].
pub struct WebSocketConfigV {
    pub address: Seq<char>,
    pub port: u16,
    pub path: Seq<char>,
}

/// The abstract value of a [`QuicConfig`].
pub struct QuicConfigV {
    pub address: Seq<char>,
    pub port: u16,
    pub cert_path: Seq<char>,
    pub key_path: Seq<char>,
}

/// The abstract value of a [`ServerConfig`].
pub struct ServerConfigV {
    pub quic: Option<QuicConfigV>,
    pub tcp: Option<TcpConfigV>,
    pub websocket: Option<WebSocketConfigV>,
}

impl View for TcpConfig {
    type V = TcpConfigV;

    open spec fn view(&self) -> TcpConfigV {
        TcpConfigV { address: self.address@, port: self.port }
    }
}

impl View for WebSocketConfig {
    type V = WebSocketConfigV;

    open spec fn view(&self) -> WebSocketConfigV {
        WebSocketConfigV { address: self.address@, port: self.port, path: self.path@ }
    }
}

impl View for QuicConfig {
    type V = QuicConfigV;

    open spec fn view(&self) -> QuicConfigV {
        QuicConfigV {
            address: self.address@,
            port: self.port,
            cert_path: self.cert_path@,
            key_path: self.key_path@,
        }
    }
}

impl View for ServerConfig {
    type V = ServerConfigV;

    open spec fn view(&self) -> ServerConfigV {
        ServerConfigV {
            quic: match self.quic {
                Some(q) => Some(q@),
                None => None,
            },
            tcp: match self.tcp {
                Some(t) => Some(t@),
                None => None,
            },
            websocket: match self.websocket {
                Some(w) => Some(w@),
                None => None,
            },
        }
    }
}

/// The TCP section the lines describe: absent when no `[tcp]` header
/// appears, its `address` and `port` otherwise, or the first error.
pub open spec fn spec_tcp_result(lines: Seq<Seq<char>>) -> Result<Option<TcpConfigV>, ConfigError> {
    if !section_seen_upto(lines, lines.len() as int, SectionId::Tcp) {
        Ok(None)
    } else {
        match last_value_upto(lines, lines.len() as int, SectionId::Tcp, "address"@) {
            None => Err(
                ConfigError::MissingField { section: SectionId::Tcp, field: FieldId::Address },
            ),
            Some(addr) => match last_value_upto(lines, lines.len() as int, SectionId::Tcp, "port"@) {
                None => Err(
                    ConfigError::MissingField { section: SectionId::Tcp, field: FieldId::Port },
                ),
                Some(p) => match spec_parse_port(p) {
                    None => Err(ConfigError::InvalidPort { section: SectionId::Tcp }),
                    Some(port) => Ok(Some(TcpConfigV { address: addr, port })),
                },
            },
        }
    }
}

/// The WebSocket section the lines describe, as [`spec_tcp_result`] with
/// the additional `path` key.
pub open spec fn spec_ws_result(lines: Seq<Seq<char>>) -> Result<
    Option<WebSocketConfigV>,
    ConfigError,
> {
    if !section_seen_upto(lines, lines.len() as int, SectionId::WebSocket) {
        Ok(None)
    } else {
        match last_value_upto(lines, lines.len() as int, SectionId::WebSocket, "address"@) {
            None => Err(
                ConfigError::MissingField {
                    section: SectionId::WebSocket,
                    field: FieldId::Address,
                },
            ),
            Some(addr) => match last_value_upto(
                lines,
                lines.len() as int,
                SectionId::WebSocket,
                "port"@,
            ) {
                None => Err(
                    ConfigError::MissingField {
                        section: SectionId::WebSocket,
                        field: FieldId::Port,
                    },
                ),
                Some(p) => match spec_parse_port(p) {
                    None => Err(ConfigError::InvalidPort { section: SectionId::WebSocket }),
                    Some(port) => match last_value_upto(
                        lines,
                        lines.len() as int,
                        SectionId::WebSocket,
                        "path"@,
                    ) {
                        None => Err(
                            ConfigError::MissingField {
                                section: SectionId::WebSocket,
                                field: FieldId::Path,
                            },
                        ),
                        Some(path) => Ok(Some(WebSocketConfigV { address: addr, port, path })),
                    },
                },
            },
        }
    }
}

/// The QUIC section the lines describe, as [`spec_tcp_result`] with the
/// additional `cert_path` and `key_path` keys.
pub open spec fn spec_quic_result(lines: Seq<Seq<char>>) -> Result<
    Option<QuicConfigV>,
    ConfigError,
> {
    if !section_seen_upto(lines, lines.len() as int, SectionId::Quic) {
        Ok(None)
    } else {
        match last_value_upto(lines, lines.len() as int, SectionId::Quic, "address"@) {
            None => Err(
                ConfigError::MissingField { section: SectionId::Quic, field: FieldId::Address },
            ),
            Some(addr) => match last_value_upto(lines, lines.len() as int, SectionId::Quic, "port"@) {
                None => Err(
                    ConfigError::MissingField { section: SectionId::Quic, field: FieldId::Port },
                ),
                Some(p) => match spec_parse_port(p) {
                    None => Err(ConfigError::InvalidPort { section: SectionId::Quic }),
                    Some(port) => match last_value_upto(
                        lines,
                        lines.len() as int,
                        SectionId::Quic,
                        "cert_path"@,
                    ) {
                        None => Err(
                            ConfigError::MissingField {
                                section: SectionId::Quic,
                                field: FieldId::CertPath,
                            },
                        ),
                        Some(cert) => match last_value_upto(
                            lines,
                            lines.len() as int,
                            SectionId::Quic,
                            "key_path"@,
                        ) {
                            None => Err(
                                ConfigError::MissingField {
                                    section: SectionId::Quic,
                                    field: FieldId::KeyPath,
                                },
                            ),
                            Some(key) => Ok(
                                Some(
                                    QuicConfigV {
                                        address: addr,
                                        port,
                                        cert_path: cert,
                                        key_path: key,
                                    },
                                ),
                            ),
                        },
                    },
                },
            },
        }
    }
}

/// What [`load_config`] returns on this text: the three sections checked
/// in order TCP, WebSocket, QUIC, the first error winning.
pub open spec fn spec_parse_config(s: Seq<char>) -> Result<ServerConfigV, ConfigError> {
    let lines = split_lines(s);
    match spec_tcp_result(lines) {
        Err(e) => Err(e),
        Ok(tcp) => match spec_ws_result(lines) {
            Err(e) => Err(e),
            Ok(websocket) => match spec_quic_result(lines) {
                Err(e) => Err(e),
                Ok(quic) => Ok(ServerConfigV { quic, tcp, websocket }),
            },
        },
    }
}

/// An optional character range of `cs` stands for an optional value.
spec fn rng_matches(cs: Seq<char>, r: Option<(usize, usize)>, v: Option<Seq<char>>) -> bool {
    match r {
        Some(p) => p.0 <= p.1 <= cs.len() && v == Some(cs.subrange(p.0 as int, p.1 as int)),
        None => v is None,
    }
}

/// Parses the gateway configuration from the text of its configuration
/// file; reading the file from disk is the caller's concern.
///
/// The format is line-based: `[tcp]`, `[websocket]` and `[quic]` open the
/// recognized sections; `key = value` lines record a setting of the
/// current section, later values winning; blank lines and `;`/`#` comments
/// are skipped; unrecognized sections, keys and other lines are ignored.
/// Each section that appears must carry its required keys — `address` and
/// `port`, plus `path` for WebSocket and `cert_path` and `key_path` for
/// QUIC — and its port must be one to five digits valued at most 65535.
/// The result is exactly what [`spec_parse_config`] reads from the text.
#[verifier::loop_isolation(false)]
pub fn load_config(contents: &str) -> (r: Result<ServerConfig, ConfigError>)
    ensures
        match r {
            Ok(c) => spec_parse_config(contents@) == Ok::<ServerConfigV, ConfigError>(c@),
            Err(e) => spec_parse_config(contents@) == Err::<ServerConfigV, ConfigError>(e),
        },
{
    let chars = chars_of(contents);
    let ranges = line_ranges(&chars);
    let ghost lines = split_lines(chars@);
    let nl = ranges.len();
    let mut cur: Option<SectionId> = None;
    let mut seen_tcp = false;
    let mut seen_ws = false;
    let mut seen_quic = false;
    let mut tcp_addr: Option<(usize, usize)> = None;
    let mut tcp_port: Option<(usize, usize)> = None;
    let mut ws_addr: Option<(usize, usize)> = None;
    let mut ws_port: Option<(usize, usize)> = None;
    let mut ws_path: Option<(usize, usize)> = None;
    let mut q_addr: Option<(usize, usize)> = None;
    let mut q_port: Option<(usize, usize)> = None;
    let mut q_cert: Option<(usize, usize)> = None;
    let mut q_key: Option<(usize, usize)> = None;
    let mut j: usize = 0;
    while j < nl
        invariant
            j <= nl,
            nl == lines.len(),
            cur == section_after(lines, j as int),
            seen_tcp == section_seen_upto(lines, j as int, SectionId::Tcp),
            seen_ws == section_seen_upto(lines, j as int, SectionId::WebSocket),
            seen_quic == section_seen_upto(lines, j as int, SectionId::Quic),
            rng_matches(
                chars@,
                tcp_addr,
                last_value_upto(lines, j as int, SectionId::Tcp, "address"@),
            ),
            rng_matches(
                chars@,
                tcp_port,
                last_value_upto(lines, j as int, SectionId::Tcp, "port"@),
            ),
            rng_matches(
                chars@,
                ws_addr,
                last_value_upto(lines, j as int, SectionId::WebSocket, "address"@),
            ),
            rng_matches(
                chars@,
                ws_port,
                last_value_upto(lines, j as int, SectionId::WebSocket, "port"@),
            ),
            rng_matches(
                chars@,
                ws_path,
                last_value_upto(lines, j as int, SectionId::WebSocket, "path"@),
            ),
            rng_matches(
                chars@,
                q_addr,
                last_value_upto(lines, j as int, SectionId::Quic, "address"@),
            ),
            rng_matches(
                chars@,
                q_port,
                last_value_upto(lines, j as int, SectionId::Quic, "port"@),
            ),
            rng_matches(
                chars@,
                q_cert,
                last_value_upto(lines, j as int, SectionId::Quic, "cert_path"@),
            ),
            rng_matches(
                chars@,
                q_key,
                last_value_upto(lines, j as int, SectionId::Quic, "key_path"@),
            ),
        decreases nl - j,
    {
        let (a, b) = ranges[j];
        proof {
            assert(ranges@[j as int] == (a, b));
            assert(chars@.subrange(a as int, b as int) == lines[j as int]);
        }
        let (a2, b2) = trim_range(&chars, a, b);
        let ghost t = trim(lines[j as int]);
        proof {
            assert(chars@.subrange(a2 as int, b2 as int) == t);
        }
        if a2 == b2 {
            // blank line
            proof {
                assert(t.len() == 0);
                assert(is_comment_or_blank(t));
            }
        } else {
            let c0 = chars[a2];
            proof {
                assert(t[0] == c0);
            }
            if c0 == ';' || c0 == '#' {
                // comment line
                proof {
                    assert(is_comment_or_blank(t));
                    assert(!is_header(t));
                }
            } else if c0 == '[' {
                // header line: switch sections
                proof {
                    assert(is_header(t));
                    assert(!is_pair(t));
                }
                if range_eq_lit(&chars, a2, b2, "[tcp]") {
                    cur = Some(SectionId::Tcp);
                    seen_tcp = true;
                    proof {
                        assert(header_section(t) == Some(SectionId::Tcp));
                    }
                } else if range_eq_lit(&chars, a2, b2, "[websocket]") {
                    cur = Some(SectionId::WebSocket);
                    seen_ws = true;
                    proof {
                        assert(header_section(t) == Some(SectionId::WebSocket));
                    }
                } else if range_eq_lit(&chars, a2, b2, "[quic]") {
                    cur = Some(SectionId::Quic);
                    seen_quic = true;
                    proof {
                        assert(header_section(t) == Some(SectionId::Quic));
                    }
                } else {
                    cur = None;
                    proof {
                        assert(header_section(t) == None::<SectionId>);
                    }
                }
            } else {
                // a pair line records a setting; anything else is ignored
                proof {
                    assert(!is_comment_or_blank(t));
                    assert(!is_header(t));
                }
                match find_eq(&chars, a2, b2) {
                    Some(e) => {
                        proof {
                            assert(is_first_eq(t, e - a2));
                            assert(is_pair(t));
                            let k0 = eq_idx(t);
                            assert(is_first_eq(t, k0));
                            if k0 < e - a2 {
                                assert(t[k0] == '=');
                                assert(false);
                            } else if k0 > e - a2 {
                                assert(t[e - a2] == '=');
                                assert(false);
                            }
                            assert(eq_idx(t) == e - a2);
                            assert(t.take(e - a2) =~= chars@.subrange(a2 as int, e as int));
                            assert(t.subrange(e - a2 + 1, t.len() as int) =~= chars@.subrange(
                                e + 1,
                                b2 as int,
                            ));
                        }
                        let (ka, kb) = trim_range(&chars, a2, e);
                        let (va, vb) = trim_range(&chars, e + 1, b2);
                        proof {
                            assert(pair_key(t) == chars@.subrange(ka as int, kb as int));
                            assert(pair_value(t) == chars@.subrange(va as int, vb as int));
                        }
                        let is_addr = range_eq_lit(&chars, ka, kb, "address");
                        let is_port = range_eq_lit(&chars, ka, kb, "port");
                        let is_path = range_eq_lit(&chars, ka, kb, "path");
                        let is_cert = range_eq_lit(&chars, ka, kb, "cert_path");
                        let is_keyp = range_eq_lit(&chars, ka, kb, "key_path");
                        match cur {
                            Some(SectionId::Tcp) => {
                                if is_addr {
                                    tcp_addr = Some((va, vb));
                                }
                                if is_port {
                                    tcp_port = Some((va, vb));
                                }
                            },
                            Some(SectionId::WebSocket) => {
                                if is_addr {
                                    ws_addr = Some((va, vb));
                                }
                                if is_port {
                                    ws_port = Some((va, vb));
                                }
                                if is_path {
                                    ws_path = Some((va, vb));
                                }
                            },
                            Some(SectionId::Quic) => {
                                if is_addr {
                                    q_addr = Some((va, vb));
                                }
                                if is_port {
                                    q_port = Some((va, vb));
                                }
                                if is_cert {
                                    q_cert = Some((va, vb));
                                }
                                if is_keyp {
                                    q_key = Some((va, vb));
                                }
                            },
                            None => {},
                        }
                    },
                    None => {
                        proof {
                            assert(!is_pair(t));
                        }
                    },
                }
            }
        }
        j += 1;
    }
    // assemble the sections, first error first
    let tcp_cfg: Option<TcpConfig> = if seen_tcp {
        match tcp_addr {
            None => {
                return Err(
                    ConfigError::MissingField { section: SectionId::Tcp, field: FieldId::Address },
                );
            },
            Some((xa, xb)) => {
                let address = contents.substring_char(xa, xb).to_owned();
                match tcp_port {
                    None => {
                        return Err(
                            ConfigError::MissingField {
                                section: SectionId::Tcp,
                                field: FieldId::Port,
                            },
                        );
                    },
                    Some((pa, pb)) => match parse_port_range(&chars, pa, pb) {
                        None => {
                            return Err(ConfigError::InvalidPort { section: SectionId::Tcp });
                        },
                        Some(port) => Some(TcpConfig { address, port }),
                    },
                }
            },
        }
    } else {
        None
    };
    let ws_cfg: Option<WebSocketConfig> = if seen_ws {
        match ws_addr {
            None => {
                return Err(
                    ConfigError::MissingField {
                        section: SectionId::WebSocket,
                        field: FieldId::Address,
                    },
                );
            },
            Some((xa, xb)) => {
                let address = contents.substring_char(xa, xb).to_owned();
                match ws_port {
                    None => {
                        return Err(
                            ConfigError::MissingField {
                                section: SectionId::WebSocket,
                                field: FieldId::Port,
                            },
                        );
                    },
                    Some((pa, pb)) => match parse_port_range(&chars, pa, pb) {
                        None => {
                            return Err(ConfigError::InvalidPort { section: SectionId::WebSocket });
                        },
                        Some(port) => match ws_path {
                            None => {
                                return Err(
                                    ConfigError::MissingField {
                                        section: SectionId::WebSocket,
                                        field: FieldId::Path,
                                    },
                                );
                            },
                            Some((ya, yb)) => {
                                let path = contents.substring_char(ya, yb).to_owned();
                                Some(WebSocketConfig { address, port, path })
                            },
                        },
                    },
                }
            },
        }
    } else {
        None
    };
    let quic_cfg: Option<QuicConfig> = if seen_quic {
        match q_addr {
            None => {
                return Err(
                    ConfigError::MissingField { section: SectionId::Quic, field: FieldId::Address },
                );
            },
            Some((xa, xb)) => {
                let address = contents.substring_char(xa, xb).to_owned();
                match q_port {
                    None => {
                        return Err(
                            ConfigError::MissingField {
                                section: SectionId::Quic,
                                field: FieldId::Port,
                            },
                        );
                    },
                    Some((pa, pb)) => match parse_port_range(&chars, pa, pb) {
                        None => {
                            return Err(ConfigError::InvalidPort { section: SectionId::Quic });
                        },
                        Some(port) => match q_cert {
                            None => {
                                return Err(
                                    ConfigError::MissingField {
                                        section: SectionId::Quic,
                                        field: FieldId::CertPath,
                                    },
                                );
                            },
                            Some((ca, cb)) => {
                                let cert_path = contents.substring_char(ca, cb).to_owned();
                                match q_key {
                                    None => {
                                        return Err(
                                            ConfigError::MissingField {
                                                section: SectionId::Quic,
                                                field: FieldId::KeyPath,
                                            },
                                        );
                                    },
                                    Some((da, db)) => {
                                        let key_path = contents.substring_char(da, db).to_owned();
                                        Some(
                                            QuicConfig { address, port, cert_path, key_path },
                                        )
                                    },
                                }
                            },
                        },
                    },
                }
            },
        }
    } else {
        None
    };
    Ok(ServerConfig { quic: quic_cfg, tcp: tcp_cfg, websocket: ws_cfg })
}

} // verus!
