//! Split-tunnel routes: reading the WebVPN rules and planning the routes to install.
use vstd::prelude::*;
use vstd::string::StringExecFns;
use crate::text::{
    chars_of, copy_chars, decimal, dotted_quad, find_char, find_char_exec, format_dotted_quad, push_decimal_u32,
    string_from_chars, trim_text, trimmed_text,
};
use crate::wire::be_u32;
use vstd::arithmetic::power2::{lemma2_to64, lemma_pow2_unfold, pow2};

verus! {

/// An IPv4 route: destination network and netmask, each as a 32-bit address.
#[derive(Debug, Clone, Copy, PartialEq, Eq, Structural)]
pub struct WindowsRoute {
    pub destination: u32,
    pub netmask: u32,
}

/// Why a split-tunnel rule was rejected.
#[derive(Debug, Clone, Copy, PartialEq, Eq, Structural)]
pub enum RouteError {
    /// The rule is empty once trimmed.
    Empty,
    /// A rule with `;` that is not `protocol;target;port`.
    Format,
    /// The address before `/` is not an IP address.
    InvalidAddress,
    /// A prefix length above 32.
    InvalidPrefix(u8),
    /// The part after `/` is neither a prefix length nor an IPv4 netmask.
    InvalidMask,
    /// A rule without `/` that is not an IP address.
    InvalidHost,
}

/// The 32-bit netmask with the `p` highest bits set.
pub open spec fn prefix_bits(p: nat) -> nat
    decreases p,
{
    if p == 0 {
        0
    } else {
        0x8000_0000 + prefix_bits((p - 1) as nat) / 2
    }
}

proof fn lemma_prefix_bits_bound(p: nat)
    ensures
        prefix_bits(p) < 0x1_0000_0000,
    decreases p,
{
    if p > 0 {
        lemma_prefix_bits_bound((p - 1) as nat);
    }
}

/// The netmask of a prefix length `p` has the `p` highest of its 32 bits set and
/// the others clear: its value is 2^32 - 2^(32 - p).
pub proof fn lemma_prefix_bits_value(p: nat)
    requires
        p <= 32,
    ensures
        prefix_bits(p) == pow2(32) - pow2((32 - p) as nat),
    decreases p,
{
    lemma2_to64();
    if p > 0 {
        lemma_prefix_bits_value((p - 1) as nat);
        lemma_pow2_unfold((33 - p) as nat);
        let q = pow2((32 - p) as nat);
        assert(pow2((33 - p) as nat) == 2 * q);
        assert((0x1_0000_0000 - 2 * q) / 2 == 0x8000_0000 - q);
    }
}

/// The netmask of a prefix length; lengths above 32 are refused.
pub fn prefix_to_netmask(prefix: u8) -> (r: Result<u32, RouteError>)
    ensures
        prefix > 32 ==> r == Err::<u32, RouteError>(RouteError::InvalidPrefix(prefix)),
        prefix <= 32 ==> r == Ok::<u32, RouteError>(prefix_bits(prefix as nat) as u32),
        prefix <= 32 ==> (r matches Ok(m) && m as int == pow2(32) - pow2((32 - prefix) as nat)),
{
    if prefix > 32 {
        return Err(RouteError::InvalidPrefix(prefix));
    }
    proof {
        lemma_prefix_bits_value(prefix as nat);
        lemma_prefix_bits_bound(prefix as nat);
    }
    let mut bits: u32 = 0;
    let mut i: u8 = 0;
    while i < prefix
        invariant
            i <= prefix <= 32,
            bits == prefix_bits(i as nat),
        decreases prefix - i,
    {
        proof {
            lemma_prefix_bits_bound(i as nat);
        }
        bits = 0x8000_0000 + bits / 2;
        i = i + 1;
    }
    Ok(bits)
}

/// The network address of `address` under `netmask`.
pub fn normalize_network(address: u32, netmask: u32) -> (r: u32)
    ensures
        r == address & netmask,
{
    address & netmask
}

/// The target of a rule: the whole trimmed rule, or, for `protocol;target;port`,
/// the trimmed middle part; `None` when a rule with `;` has other than three parts.
pub open spec fn route_target(t: Seq<char>) -> Option<Seq<char>> {
    let i1 = find_char(t, ';', 0);
    if i1 == t.len() {
        Some(t)
    } else {
        let i2 = find_char(t, ';', i1 + 1);
        if i2 == t.len() {
            None
        } else if find_char(t, ';', i2 + 1) != t.len() {
            None
        } else {
            Some(trimmed_text(t.subrange(i1 + 1, i2)))
        }
    }
}

/// A rule's target cut at its first `/`: the address text, and the suffix text if there is one.
pub struct RouteText {
    pub address: String,
    pub suffix: Option<String>,
}

proof fn lemma_find_char_bounds(s: Seq<char>, c: char, from: int)
    requires
        0 <= from <= s.len(),
    ensures
        from <= find_char(s, c, from) <= s.len(),
        find_char(s, c, from) < s.len() ==> s[find_char(s, c, from)] == c,
    decreases s.len() - from,
{
    if from < s.len() && s[from] != c {
        lemma_find_char_bounds(s, c, from + 1);
    }
}

/// Reads the text of a split-tunnel rule: `target` or `protocol;target;port`,
/// where the target is `address`, `address/prefix` or `address/netmask`.
pub fn split_route(route: &str) -> (r: Result<RouteText, RouteError>)
    ensures
        ({
            let t = trimmed_text(route@);
            if t.len() == 0 {
                r matches Err(e) && e == RouteError::Empty
            } else {
                match route_target(t) {
                    None => r matches Err(e) && e == RouteError::Format,
                    Some(g) => {
                        let k = find_char(g, '/', 0);
                        &&& r matches Ok(rt)
                        &&& if k == g.len() {
                            rt.address@ == g && rt.suffix is None
                        } else {
                            rt.address@ == g.subrange(0, k) && (rt.suffix matches Some(sf) && sf@ == g.subrange(
                                k + 1,
                                g.len() as int,
                            ))
                        }
                    },
                }
            }
        }),
{
    let trimmed = trim_text(route);
    let t = chars_of(trimmed);
    if t.len() == 0 {
        return Err(RouteError::Empty);
    }
    let i1 = find_char_exec(t.as_slice(), ';', 0);
    proof {
        lemma_find_char_bounds(t@, ';', 0);
    }
    let g: Vec<char> = if i1 == t.len() {
        t
    } else {
        let i2 = find_char_exec(t.as_slice(), ';', i1 + 1);
        proof {
            lemma_find_char_bounds(t@, ';', i1 + 1);
        }
        if i2 == t.len() {
            return Err(RouteError::Format);
        }
        let i3 = find_char_exec(t.as_slice(), ';', i2 + 1);
        if i3 != t.len() {
            return Err(RouteError::Format);
        }
        let middle = copy_chars(t.as_slice(), i1 + 1, i2);
        let middle_text = string_from_chars(middle.as_slice());
        chars_of(trim_text(middle_text.as_str()))
    };
    let k = find_char_exec(g.as_slice(), '/', 0);
    proof {
        lemma_find_char_bounds(g@, '/', 0);
    }
    if k == g.len() {
        Ok(RouteText { address: string_from_chars(g.as_slice()), suffix: None })
    } else {
        let address = copy_chars(g.as_slice(), 0, k);
        let suffix = copy_chars(g.as_slice(), k + 1, g.len());
        Ok(RouteText {
            address: string_from_chars(address.as_slice()),
            suffix: Some(string_from_chars(suffix.as_slice())),
        })
    }
}

/// What parsing a text as an IP address gave.
#[derive(Debug, Clone, Copy, PartialEq, Eq, Structural)]
pub enum IpText {
    V4(u32),
    V6,
    Invalid,
}

/// What parsing the suffix after `/` gave: as a prefix length, and as an IPv4 netmask.
#[derive(Debug, Clone, Copy, PartialEq, Eq, Structural)]
pub struct SuffixText {
    pub prefix: Option<u8>,
    pub netmask: Option<u32>,
}

/// The route of a rule, from the parsed address and suffix: IPv6 rules give no
/// route; a suffix is read as a prefix length if it is one, else as a netmask; a
/// rule without a suffix is a host route. The destination is the network address.
pub open spec fn route_of(address: IpText, suffix: Option<SuffixText>) -> Result<Option<WindowsRoute>, RouteError> {
    match suffix {
        Some(sf) => match address {
            IpText::Invalid => Err(RouteError::InvalidAddress),
            IpText::V6 => Ok(None),
            IpText::V4(a) => match sf.prefix {
                Some(p) => if p > 32 {
                    Err(RouteError::InvalidPrefix(p))
                } else {
                    let m = prefix_bits(p as nat) as u32;
                    Ok(Some(WindowsRoute { destination: a & m, netmask: m }))
                },
                None => match sf.netmask {
                    Some(m) => Ok(Some(WindowsRoute { destination: a & m, netmask: m })),
                    None => Err(RouteError::InvalidMask),
                },
            },
        },
        None => match address {
            IpText::Invalid => Err(RouteError::InvalidHost),
            IpText::V6 => Ok(None),
            IpText::V4(a) => Ok(Some(WindowsRoute { destination: a & 0xFFFF_FFFFu32, netmask: 0xFFFF_FFFFu32 })),
        },
    }
}

/// A rule `address/p` with an IPv4 address and a prefix length `p` of at most 32 is
/// a route whose netmask has the `p` highest bits set and whose destination is the
/// address under that netmask; `/32` is the host route of the address itself, and
/// only a prefix length above 32 is refused. The netmask text after `/` plays no part.
pub proof fn lemma_prefix_rule(a: u32, p: u8, netmask: Option<u32>)
    ensures
        p <= 32 ==> (route_of(IpText::V4(a), Some(SuffixText { prefix: Some(p), netmask })) matches Ok(Some(r))
            && r.netmask as int == pow2(32) - pow2((32 - p) as nat) && r.destination == a & r.netmask),
        p == 32 ==> route_of(IpText::V4(a), Some(SuffixText { prefix: Some(p), netmask })) == Ok::<
            Option<WindowsRoute>,
            RouteError,
        >(Some(WindowsRoute { destination: a, netmask: 0xFFFF_FFFFu32 })),
        p > 32 ==> route_of(IpText::V4(a), Some(SuffixText { prefix: Some(p), netmask })) == Err::<
            Option<WindowsRoute>,
            RouteError,
        >(RouteError::InvalidPrefix(p)),
{
    if p <= 32 {
        lemma_prefix_bits_value(p as nat);
        lemma_prefix_bits_bound(p as nat);
        lemma2_to64();
        if p == 32 {
            assert(pow2(0) == 1);
            assert(prefix_bits(32) == 0xFFFF_FFFF);
            assert(a & 0xFFFF_FFFFu32 == a) by (bit_vector);
        }
    }
}

/// Builds the route of a rule from its parsed address and suffix.
pub fn finish_split_tunnel_route(address: IpText, suffix: Option<SuffixText>) -> (r: Result<Option<WindowsRoute>, RouteError>)
    ensures
        r == route_of(address, suffix),
{
    let (a, netmask) = match suffix {
        Some(sf) => {
            let a = match address {
                IpText::Invalid => return Err(RouteError::InvalidAddress),
                IpText::V6 => return Ok(None),
                IpText::V4(a) => a,
            };
            let netmask = match sf.prefix {
                Some(p) => match prefix_to_netmask(p) {
                    Ok(m) => m,
                    Err(e) => return Err(e),
                },
                None => match sf.netmask {
                    Some(m) => m,
                    None => return Err(RouteError::InvalidMask),
                },
            };
            (a, netmask)
        },
        None => {
            let a = match address {
                IpText::Invalid => return Err(RouteError::InvalidHost),
                IpText::V6 => return Ok(None),
                IpText::V4(a) => a,
            };
            (a, 0xFFFF_FFFFu32)
        },
    };
    Ok(Some(WindowsRoute { destination: normalize_network(a, netmask), netmask }))
}

/// The order in which routes are installed: by destination, then by netmask.
pub open spec fn route_lt(a: WindowsRoute, b: WindowsRoute) -> bool {
    a.destination < b.destination || (a.destination == b.destination && a.netmask < b.netmask)
}

/// Each route comes strictly before the next, so none occurs twice.
pub open spec fn strictly_sorted(s: Seq<WindowsRoute>) -> bool {
    forall|i: int, j: int| 0 <= i < j < s.len() ==> route_lt(#[trigger] s[i], #[trigger] s[j])
}

/// The number of rules among the first `n` that gave no route (IPv6 rules).
pub open spec fn count_skipped(s: Seq<Result<Option<WindowsRoute>, RouteError>>, n: int) -> nat
    decreases n,
{
    if n <= 0 {
        0
    } else {
        count_skipped(s, n - 1) + if s[n - 1] == Ok::<Option<WindowsRoute>, RouteError>(None) {
            1nat
        } else {
            0nat
        }
    }
}

fn route_before(a: WindowsRoute, b: WindowsRoute) -> (r: bool)
    ensures
        r == route_lt(a, b),
{
    a.destination < b.destination || (a.destination == b.destination && a.netmask < b.netmask)
}

fn same_route(a: WindowsRoute, b: WindowsRoute) -> (r: bool)
    ensures
        r == (a == b),
{
    a.destination == b.destination && a.netmask == b.netmask
}

proof fn lemma_insert_contains(s: Seq<WindowsRoute>, i: int, x: WindowsRoute)
    requires
        0 <= i <= s.len(),
    ensures
        forall|y: WindowsRoute| #[trigger] s.insert(i, x).contains(y) <==> (s.contains(y) || y == x),
{
    let t = s.insert(i, x);
    assert forall|y: WindowsRoute| #[trigger] t.contains(y) <==> (s.contains(y) || y == x) by {
        if t.contains(y) {
            let k = choose|k: int| 0 <= k < t.len() && t[k] == y;
            if k < i {
                assert(s[k] == y);
            } else if k > i {
                assert(s[k - 1] == y);
            }
        }
        if s.contains(y) {
            let k = choose|k: int| 0 <= k < s.len() && s[k] == y;
            if k < i {
                assert(t[k] == y);
            } else {
                assert(t[k + 1] == y);
            }
        }
        if y == x {
            assert(t[i] == x);
        }
    }
}

/// Adds `x` to a strictly sorted list of routes, keeping it strictly sorted.
fn insert_sorted(v: &mut Vec<WindowsRoute>, x: WindowsRoute)
    requires
        strictly_sorted(old(v)@),
    ensures
        strictly_sorted(final(v)@),
        forall|y: WindowsRoute| final(v)@.contains(y) <==> (old(v)@.contains(y) || y == x),
{
    let mut i: usize = 0;
    while i < v.len() && route_before(v[i], x)
        invariant
            i <= v@.len(),
            v@ == old(v)@,
            strictly_sorted(v@),
            forall|j: int| 0 <= j < i ==> route_lt(#[trigger] v@[j], x),
        decreases v@.len() - i,
    {
        i = i + 1;
    }
    if i < v.len() && same_route(v[i], x) {
        assert(v@[i as int] == x);
        return;
    }
    let ghost before = v@;
    assert(before == old(v)@);
    proof {
        assert forall|j: int| i <= j < before.len() implies route_lt(x, #[trigger] before[j]) by {
            if j > i {
                assert(route_lt(before[i as int], before[j]));
            }
        }
    }
    v.insert(i, x);
    proof {
        assert forall|a: int, b: int| 0 <= a < b < v@.len() implies route_lt(#[trigger] v@[a], #[trigger] v@[b]) by {
            if b < i {
                assert(v@[a] == before[a] && v@[b] == before[b]);
            } else if b == i {
                assert(v@[a] == before[a]);
            } else if a < i {
                assert(v@[a] == before[a] && v@[b] == before[b - 1]);
                assert(route_lt(x, before[b - 1]));
            } else if a == i {
                assert(v@[b] == before[b - 1]);
            } else {
                assert(v@[a] == before[a - 1] && v@[b] == before[b - 1]);
            }
        }
        lemma_insert_contains(before, i as int, x);
        assert(v@ == before.insert(i as int, x));
    }
}

/// Every route read from a rule is a network route: its destination has no bits
/// outside its netmask, so normalizing it again changes nothing.
pub proof fn lemma_route_is_network(address: IpText, suffix: Option<SuffixText>)
    ensures
        route_of(address, suffix) matches Ok(Some(r)) ==> r.destination & r.netmask == r.destination,
{
    assert(forall|a: u32, m: u32| #![trigger (a & m) & m] (a & m) & m == a & m) by (bit_vector);
}

/// Whether one of the rules gives the route `x`.
pub open spec fn rule_gives(parsed: Seq<Result<Option<WindowsRoute>, RouteError>>, x: WindowsRoute) -> bool {
    exists|i: int| 0 <= i < parsed.len() && #[trigger] parsed[i] == Ok::<Option<WindowsRoute>, RouteError>(Some(x))
}

/// Whether `routes` is the plan for the readable rules `parsed`: the routes they
/// give, without `local`, strictly sorted.
pub open spec fn planned(
    parsed: Seq<Result<Option<WindowsRoute>, RouteError>>,
    local: WindowsRoute,
    routes: Seq<WindowsRoute>,
) -> bool {
    &&& strictly_sorted(routes)
    &&& forall|x: WindowsRoute| routes.contains(x) <==> (x != local && exists|i: int|
        0 <= i < parsed.len() && #[trigger] parsed[i] == Ok::<Option<WindowsRoute>, RouteError>(Some(x)))
}

/// Plans the split-tunnel routes from the parsed rules: the first rule that could
/// not be read fails the plan; otherwise the routes of all rules, without the
/// tunnel's own network `local`, sorted and without repeats, and the number of
/// IPv6 rules that were skipped.
pub fn plan_split_tunnel_routes(
    parsed: &Vec<Result<Option<WindowsRoute>, RouteError>>,
    local: WindowsRoute,
) -> (r: Result<(Vec<WindowsRoute>, usize), RouteError>)
    ensures
        r is Ok <==> forall|i: int| 0 <= i < parsed@.len() ==> (#[trigger] parsed@[i]) is Ok,
        r matches Err(e) ==> exists|i: int|
            0 <= i < parsed@.len() && parsed@[i] == Err::<Option<WindowsRoute>, RouteError>(e) && forall|j: int|
                0 <= j < i ==> (#[trigger] parsed@[j]) is Ok,
        r matches Ok((routes, skipped)) ==> {
            &&& planned(parsed@, local, routes@)
            &&& skipped == count_skipped(parsed@, parsed@.len() as int)
        },
{
    let mut routes: Vec<WindowsRoute> = Vec::new();
    let mut skipped: usize = 0;
    let mut i: usize = 0;
    while i < parsed.len()
        invariant
            i <= parsed@.len(),
            skipped <= i,
            skipped == count_skipped(parsed@, i as int),
            strictly_sorted(routes@),
            forall|j: int| 0 <= j < i ==> (#[trigger] parsed@[j]) is Ok,
            forall|x: WindowsRoute| routes@.contains(x) <==> (x != local && exists|j: int|
                0 <= j < i && #[trigger] parsed@[j] == Ok::<Option<WindowsRoute>, RouteError>(Some(x))),
        decreases parsed@.len() - i,
    {
        match &parsed[i] {
            Err(e) => {
                return Err(*e);
            },
            Ok(None) => {
                skipped = skipped + 1;
            },
            Ok(Some(x)) => {
                if !same_route(*x, local) {
                    insert_sorted(&mut routes, *x);
                }
            },
        }
        proof {
            assert forall|x: WindowsRoute| routes@.contains(x) <==> (x != local && exists|j: int|
                0 <= j < i + 1 && #[trigger] parsed@[j] == Ok::<Option<WindowsRoute>, RouteError>(Some(x))) by {
                if exists|j: int| 0 <= j < i + 1 && #[trigger] parsed@[j] == Ok::<Option<WindowsRoute>, RouteError>(Some(x)) {
                    let j = choose|j: int| 0 <= j < i + 1 && #[trigger] parsed@[j] == Ok::<Option<WindowsRoute>, RouteError>(Some(x));
                    if j < i {
                        assert(exists|k: int| 0 <= k < i && #[trigger] parsed@[k] == Ok::<Option<WindowsRoute>, RouteError>(Some(x)));
                    }
                }
                if exists|j: int| 0 <= j < i && #[trigger] parsed@[j] == Ok::<Option<WindowsRoute>, RouteError>(Some(x)) {
                    let j = choose|j: int| 0 <= j < i && #[trigger] parsed@[j] == Ok::<Option<WindowsRoute>, RouteError>(Some(x));
                    assert(0 <= j < i + 1);
                }
            }
        }
        i = i + 1;
    }
    Ok((routes, skipped))
}

proof fn lemma_sorted_sets_equal(a: Seq<WindowsRoute>, b: Seq<WindowsRoute>)
    requires
        strictly_sorted(a),
        strictly_sorted(b),
        forall|x: WindowsRoute| a.contains(x) <==> b.contains(x),
    ensures
        a == b,
    decreases a.len(),
{
    if a.len() == 0 {
        if b.len() > 0 {
            assert(b.contains(b[0]));
        }
        assert(a =~= b);
    } else if b.len() == 0 {
        assert(a.contains(a[0]));
    } else {
        assert(a.contains(a[0]));
        assert(b.contains(b[0]));
        let k = choose|k: int| 0 <= k < b.len() && b[k] == a[0];
        let m = choose|m: int| 0 <= m < a.len() && a[m] == b[0];
        if k > 0 {
            assert(route_lt(b[0], b[k]));
            if m > 0 {
                assert(route_lt(a[0], a[m]));
            }
        }
        assert(a[0] == b[0]);
        let a1 = a.drop_first();
        let b1 = b.drop_first();
        assert forall|x: WindowsRoute| a1.contains(x) <==> b1.contains(x) by {
            if a1.contains(x) {
                let i = choose|i: int| 0 <= i < a1.len() && a1[i] == x;
                assert(a[i + 1] == x);
                assert(route_lt(a[0], a[i + 1]));
                assert(b.contains(x));
                let j = choose|j: int| 0 <= j < b.len() && b[j] == x;
                assert(j != 0);
                assert(b1[j - 1] == x);
            }
            if b1.contains(x) {
                let i = choose|i: int| 0 <= i < b1.len() && b1[i] == x;
                assert(b[i + 1] == x);
                assert(route_lt(b[0], b[i + 1]));
                assert(a.contains(x));
                let j = choose|j: int| 0 <= j < a.len() && a[j] == x;
                assert(j != 0);
                assert(a1[j - 1] == x);
            }
        }
        assert forall|i: int, j: int| 0 <= i < j < a1.len() implies route_lt(#[trigger] a1[i], #[trigger] a1[j]) by {
            assert(route_lt(a[i + 1], a[j + 1]));
        }
        assert forall|i: int, j: int| 0 <= i < j < b1.len() implies route_lt(#[trigger] b1[i], #[trigger] b1[j]) by {
            assert(route_lt(b[i + 1], b[j + 1]));
        }
        lemma_sorted_sets_equal(a1, b1);
        assert(a.len() == a1.len() + 1 && b.len() == b1.len() + 1);
        assert forall|i: int| 0 <= i < a.len() implies a[i] == b[i] by {
            if i > 0 {
                assert(a[i] == a1[i - 1]);
                assert(b[i] == b1[i - 1]);
            }
        }
        assert(a =~= b);
    }
}

/// The plan depends only on which routes the rules give: two rule lists that give
/// the same routes are planned identically, whatever their order and repeats.
pub proof fn lemma_plan_canonical(
    p1: Seq<Result<Option<WindowsRoute>, RouteError>>,
    p2: Seq<Result<Option<WindowsRoute>, RouteError>>,
    local: WindowsRoute,
    r1: Seq<WindowsRoute>,
    r2: Seq<WindowsRoute>,
)
    requires
        planned(p1, local, r1),
        planned(p2, local, r2),
        forall|x: WindowsRoute| #[trigger] rule_gives(p1, x) <==> rule_gives(p2, x),
    ensures
        r1 == r2,
{
    assert forall|x: WindowsRoute| r1.contains(x) <==> r2.contains(x) by {
        assert(rule_gives(p1, x) <==> rule_gives(p2, x));
        if exists|i: int| 0 <= i < p1.len() && #[trigger] p1[i] == Ok::<Option<WindowsRoute>, RouteError>(Some(x)) {
            assert(exists|i: int| 0 <= i < p2.len() && #[trigger] p2[i] == Ok::<Option<WindowsRoute>, RouteError>(Some(x)));
        }
        if exists|i: int| 0 <= i < p2.len() && #[trigger] p2[i] == Ok::<Option<WindowsRoute>, RouteError>(Some(x)) {
            assert(exists|i: int| 0 <= i < p1.len() && #[trigger] p1[i] == Ok::<Option<WindowsRoute>, RouteError>(Some(x)));
        }
    }
    lemma_sorted_sets_equal(r1, r2);
}

/// Whether `c` is one of the ASCII digits `0` to `9`.
pub open spec fn is_ascii_digit(c: char) -> bool {
    '0' <= c <= '9'
}

/// The value of a string of decimal digits.
pub open spec fn digits_value(d: Seq<char>) -> nat
    decreases d.len(),
{
    if d.len() == 0 {
        0
    } else {
        digits_value(d.drop_last()) * 10 + (d.last() as nat - 48) as nat
    }
}

/// The digits of a number text: without its `+` sign, if it has one.
pub open spec fn unsigned_digits(s: Seq<char>) -> Seq<char> {
    if s.len() > 0 && s[0] == '+' {
        s.drop_first()
    } else {
        s
    }
}

/// Whether every character of `d` is an ASCII digit.
pub open spec fn all_digits(d: Seq<char>) -> bool {
    forall|i: int| 0 <= i < d.len() ==> is_ascii_digit(#[trigger] d[i])
}

/// A prefix length as `u8` reads it: an optional `+` and at least one decimal digit,
/// of value at most 255.
pub open spec fn prefix_length_of(s: Seq<char>) -> Option<u8> {
    let d = unsigned_digits(s);
    if d.len() > 0 && all_digits(d) && digits_value(d) <= 255 {
        Some(digits_value(d) as u8)
    } else {
        None
    }
}

proof fn lemma_digits_value_grows(d: Seq<char>, k: int)
    requires
        0 <= k <= d.len(),
        forall|i: int| 0 <= i < d.len() ==> is_ascii_digit(#[trigger] d[i]),
    ensures
        digits_value(d.subrange(0, k)) <= digits_value(d),
    decreases d.len() - k,
{
    if k < d.len() {
        let e = d.subrange(0, k + 1);
        assert(e.drop_last() =~= d.subrange(0, k));
        assert(is_ascii_digit(e.last()));
        lemma_digits_value_grows(d, k + 1);
    } else {
        assert(d.subrange(0, k) =~= d);
    }
}

/// Reads the text after `/` as a prefix length, the way `str::parse::<u8>` does.
pub fn parse_prefix_length(s: &str) -> (r: Option<u8>)
    ensures
        r == prefix_length_of(s@),
{
    let cs = chars_of(s);
    let start: usize = if cs.len() > 0 && cs[0] == '+' { 1 } else { 0 };
    let ghost d = unsigned_digits(s@);
    assert(d =~= cs@.subrange(start as int, cs@.len() as int));
    if cs.len() == start {
        return None;
    }
    let mut value: u32 = 0;
    let mut i: usize = start;
    while i < cs.len()
        invariant
            cs@ == s@,
            d == unsigned_digits(s@),
            start <= i <= cs@.len(),
            d == cs@.subrange(start as int, cs@.len() as int),
            d.len() > 0,
            forall|j: int| 0 <= j < i - start ==> is_ascii_digit(#[trigger] d[j]),
            value == digits_value(d.subrange(0, i - start)),
            value <= 255,
        decreases cs@.len() - i,
    {
        let c = cs[i];
        if !('0' <= c && c <= '9') {
            assert(!is_ascii_digit(d[i - start]));
            assert(!all_digits(d));
            return None;
        }
        let digit: u32 = (c as u32) - 48;
        assert(d.subrange(0, i + 1 - start).drop_last() =~= d.subrange(0, i - start));
        assert(d.subrange(0, i + 1 - start).last() == c);
        let next: u32 = value * 10 + digit;
        assert(next == digits_value(d.subrange(0, i + 1 - start)));
        if next > 255 {
            proof {
                if all_digits(d) {
                    lemma_digits_value_grows(d, i + 1 - start);
                }
            }
            return None;
        }
        value = next;
        i = i + 1;
    }
    assert(d.subrange(0, d.len() as int) =~= d);
    Some(value as u8)
}

/// The two route commands.
#[derive(Debug, Clone, Copy, PartialEq, Eq, Structural)]
pub enum RouteVerb {
    Add,
    Delete,
}

/// The arguments of the route command for `route` through `gateway` on interface
/// `if_index`: verb, destination, `MASK`, netmask, gateway, `IF`, interface index,
/// with addresses in dotted-quad form.
pub open spec fn route_command_text(verb: RouteVerb, route: WindowsRoute, gateway: u32, if_index: u32) -> Seq<
    Seq<char>,
> {
    seq![
        if verb == RouteVerb::Add { seq!['A', 'D', 'D'] } else { seq!['D', 'E', 'L', 'E', 'T', 'E'] },
        dotted_quad(be_u32(route.destination)),
        seq!['M', 'A', 'S', 'K'],
        dotted_quad(be_u32(route.netmask)),
        dotted_quad(be_u32(gateway)),
        seq!['I', 'F'],
        decimal(if_index as nat),
    ]
}

fn address_text(a: u32) -> (r: String)
    ensures
        r@ == dotted_quad(be_u32(a)),
{
    let octets: [u8; 4] = [(a / 0x100_0000) as u8, ((a / 0x1_0000) % 256) as u8, ((a / 256) % 256) as u8, (a % 256) as u8];
    assert(octets@ =~= be_u32(a));
    format_dotted_quad(&octets)
}

/// Builds the arguments of a route command.
pub fn route_command_args(verb: RouteVerb, route: WindowsRoute, gateway: u32, if_index: u32) -> (r: Vec<String>)
    ensures
        r@.len() == 7,
        forall|i: int| 0 <= i < 7 ==> (#[trigger] r@[i])@ == route_command_text(verb, route, gateway, if_index)[i],
{
    proof {
        reveal_strlit("ADD");
        reveal_strlit("DELETE");
        reveal_strlit("MASK");
        reveal_strlit("IF");
    }
    let verb_text = match verb {
        RouteVerb::Add => String::from_str("ADD"),
        RouteVerb::Delete => String::from_str("DELETE"),
    };
    let mut index_text = String::new();
    push_decimal_u32(&mut index_text, if_index);
    assert(index_text@ =~= decimal(if_index as nat));
    let mut args: Vec<String> = Vec::new();
    args.push(verb_text);
    args.push(address_text(route.destination));
    args.push(String::from_str("MASK"));
    args.push(address_text(route.netmask));
    args.push(address_text(gateway));
    args.push(String::from_str("IF"));
    args.push(index_text);
    args
}

/// The order in which installed routes are taken back when a later one fails: the reverse.
pub fn rollback_order(installed: &Vec<WindowsRoute>) -> (r: Vec<WindowsRoute>)
    ensures
        r@ == installed@.reverse(),
{
    let mut out: Vec<WindowsRoute> = Vec::new();
    let mut i: usize = installed.len();
    while i > 0
        invariant
            i <= installed@.len(),
            out@ == installed@.subrange(i as int, installed@.len() as int).reverse(),
        decreases i,
    {
        i = i - 1;
        out.push(installed[i]);
        assert(installed@.subrange(i as int, installed@.len() as int).reverse() =~= installed@.subrange(
            (i + 1) as int,
            installed@.len() as int,
        ).reverse().push(installed@[i as int]));
    }
    assert(installed@.subrange(0, installed@.len() as int) =~= installed@);
    out
}

} // verus!
