//! The scope (capability) descriptor and its canonical string codec: a
//! comma-separated list of `key:value` tokens. Encoding is canonical;
//! decoding ignores unknown tokens rather than rejecting them.

use vstd::prelude::*;
use vstd::string::StrSliceExecFns;
use crate::strutil::{
    starts, first_at, dec_val, dec_rep, str_eq, str_starts_with, parse_u64, u64_str,
    lemma_first_at_is, lemma_first_at_absent,
};

verus! {

/// Access level of one permission area.
#[derive(Debug, Clone, Copy, PartialEq, Eq, Structural)]
pub enum Access {
    ReadOnly,
    ReadWrite,
    Absent,
}

/// The IP restriction of a session.
#[derive(Debug, Clone, PartialEq)]
pub enum IP {
    Any,
    Unspecified,
    This(String),
}

/// The mathematical shape of an IP restriction.
#[verifier::ext_equal]
pub enum IpV {
    Any,
    Unspecified,
    This(Seq<char>),
}

impl View for IP {
    type V = IpV;

    open spec fn view(&self) -> IpV {
        match self {
            IP::Any => IpV::Any,
            IP::Unspecified => IpV::Unspecified,
            IP::This(s) => IpV::This(s@),
        }
    }
}

/// A structured capability set: what a session may touch, under which name,
/// for how long and from where.
#[derive(Debug, Clone, PartialEq)]
pub struct Scope {
    pub(crate) mainaccount: bool,
    pub(crate) connection: bool,
    pub(crate) session: String,
    pub(crate) account: Access,
    pub(crate) trade: Access,
    pub(crate) wallet: Access,
    pub(crate) expires_in: Option<u64>,
    pub(crate) ip: IP,
    pub(crate) block_trade: Access,
    pub(crate) block_rfq: Access,
}

/// The mathematical shape of a scope.
#[verifier::ext_equal]
pub struct ScopeV {
    pub mainaccount: bool,
    pub connection: bool,
    pub session: Seq<char>,
    pub account: Access,
    pub trade: Access,
    pub wallet: Access,
    pub expires_in: Option<u64>,
    pub ip: IpV,
    pub block_trade: Access,
    pub block_rfq: Access,
}

impl View for Scope {
    type V = ScopeV;

    closed spec fn view(&self) -> ScopeV {
        ScopeV {
            mainaccount: self.mainaccount,
            connection: self.connection,
            session: self.session@,
            account: self.account,
            trade: self.trade,
            wallet: self.wallet,
            expires_in: self.expires_in,
            ip: self.ip@,
            block_trade: self.block_trade,
            block_rfq: self.block_rfq,
        }
    }
}

/// The default scope: session `default`, nothing granted, no restriction.
pub open spec fn default_scope() -> ScopeV {
    ScopeV {
        mainaccount: false,
        connection: false,
        session: "default"@,
        account: Access::Absent,
        trade: Access::Absent,
        wallet: Access::Absent,
        expires_in: None,
        ip: IpV::Unspecified,
        block_trade: Access::Absent,
        block_rfq: Access::Absent,
    }
}

impl Scope {
    /// The default scope value.
    pub fn default() -> (r: Scope)
        ensures
            r@ == default_scope(),
    {
        Scope {
            mainaccount: false,
            connection: false,
            session: String::from_str("default"),
            account: Access::Absent,
            trade: Access::Absent,
            wallet: Access::Absent,
            expires_in: None,
            ip: IP::Unspecified,
            block_trade: Access::Absent,
            block_rfq: Access::Absent,
        }
    }

    /// The default scope under the given session name.
    pub fn named(name: &str) -> (r: Scope)
        ensures
            r@ == (ScopeV { session: name@, ..default_scope() }),
    {
        let mut scope = Scope::default();
        scope.session = String::from_str(name);
        scope
    }
}


/// No comma occurs in the sequence.
pub open spec fn comma_free(p: Seq<char>) -> bool {
    forall|i: int| 0 <= i < p.len() ==> p[i] != ','
}

/// No colon occurs in the sequence.
pub open spec fn colon_free(p: Seq<char>) -> bool {
    forall|i: int| 0 <= i < p.len() ==> p[i] != ':'
}

/// What remains of a token after a prefix.
pub open spec fn after(p: Seq<char>, pre: Seq<char>) -> Seq<char> {
    p.skip(pre.len() as int)
}

/// The piece of a token value before its first colon; the whole value when
/// it has none.
pub open spec fn colon_field(s: Seq<char>) -> Seq<char> {
    s.take(first_at(s, ':'))
}

/// The effect of one token on a scope under decoding. Tokens are tried in a
/// fixed order; a token matching none of the known shapes is ignored.
pub open spec fn apply_token(sc: ScopeV, p: Seq<char>) -> ScopeV {
    if p == "mainaccount"@ {
        ScopeV { mainaccount: true, ..sc }
    } else if p == "connection"@ {
        ScopeV { connection: true, ..sc }
    } else if starts(p, "session:"@) {
        ScopeV { session: after(p, "session:"@), ..sc }
    } else if p == "account:read"@ {
        ScopeV { account: Access::ReadOnly, ..sc }
    } else if p == "account:write"@ {
        ScopeV { account: Access::ReadWrite, ..sc }
    } else if p == "trade:read"@ {
        ScopeV { trade: Access::ReadOnly, ..sc }
    } else if p == "trade:write"@ {
        ScopeV { trade: Access::ReadWrite, ..sc }
    } else if p == "wallet:read"@ {
        ScopeV { wallet: Access::ReadOnly, ..sc }
    } else if p == "wallet:write"@ {
        ScopeV { wallet: Access::ReadWrite, ..sc }
    } else if starts(p, "expires_in:"@) {
        match dec_val(colon_field(after(p, "expires_in:"@))) {
            Some(v) => ScopeV { expires_in: Some(v), ..sc },
            None => sc,
        }
    } else if p == "ip:*"@ {
        ScopeV { ip: IpV::Any, ..sc }
    } else if starts(p, "ip:"@) {
        ScopeV { ip: IpV::This(colon_field(after(p, "ip:"@))), ..sc }
    } else if p == "block_trade:read"@ {
        ScopeV { block_trade: Access::ReadOnly, ..sc }
    } else if p == "block_trade:write"@ {
        ScopeV { block_trade: Access::ReadWrite, ..sc }
    } else if p == "block_rfq:read"@ {
        ScopeV { block_rfq: Access::ReadOnly, ..sc }
    } else if p == "block_rfq:write"@ {
        ScopeV { block_rfq: Access::ReadWrite, ..sc }
    } else {
        sc
    }
}

/// Decoding, one character at a time: `cur` is the token being accumulated,
/// `t` what remains of the text; a comma closes the token.
pub open spec fn parse_step(acc: ScopeV, cur: Seq<char>, t: Seq<char>) -> ScopeV
    decreases t.len(),
{
    if t.len() == 0 {
        apply_token(acc, cur)
    } else if t[0] == ',' {
        parse_step(apply_token(acc, cur), Seq::empty(), t.drop_first())
    } else {
        parse_step(acc, cur.push(t[0]), t.drop_first())
    }
}

/// What decoding makes of a scope string, starting from the default scope.
pub open spec fn parse_spec(t: Seq<char>) -> ScopeV {
    parse_step(default_scope(), Seq::empty(), t)
}

/// The encoded tokens of one access field.
pub open spec fn access_parts(name: Seq<char>, a: Access) -> Seq<Seq<char>> {
    match a {
        Access::ReadOnly => seq![name + ":read"@],
        Access::ReadWrite => seq![name + ":write"@],
        Access::Absent => Seq::empty(),
    }
}

/// An optional flag token.
pub open spec fn flag_part(b: bool, tok: Seq<char>) -> Seq<Seq<char>> {
    if b {
        seq![tok]
    } else {
        Seq::empty()
    }
}

/// The tokens a scope encodes to, in canonical order.
pub open spec fn scope_parts(v: ScopeV) -> Seq<Seq<char>> {
    flag_part(v.mainaccount, "mainaccount"@) + flag_part(v.connection, "connection"@) + seq![
        "session:"@ + v.session,
    ] + access_parts("account"@, v.account) + access_parts("trade"@, v.trade) + access_parts(
        "wallet"@,
        v.wallet,
    ) + (match v.expires_in {
        Some(n) => seq!["expires_in:"@ + dec_rep(n as nat)],
        None => Seq::empty(),
    }) + (match v.ip {
        IpV::Any => seq!["ip:*"@],
        IpV::Unspecified => Seq::empty(),
        IpV::This(a) => seq!["ip:"@ + a],
    }) + access_parts("block_trade"@, v.block_trade) + access_parts("block_rfq"@, v.block_rfq)
}

/// Tokens joined with commas.
pub open spec fn join(ps: Seq<Seq<char>>) -> Seq<char>
    decreases ps.len(),
{
    if ps.len() == 0 {
        Seq::empty()
    } else if ps.len() == 1 {
        ps[0]
    } else {
        ps[0] + seq![','] + join(ps.drop_first())
    }
}

/// The canonical encoding of a scope.
pub open spec fn encode_spec(v: ScopeV) -> Seq<char> {
    join(scope_parts(v))
}

impl Scope {
    /// Encodes the scope as its canonical comma-separated token string.
    #[verifier::rlimit(100)]
    pub fn dump(&self) -> (r: String)
        ensures
            r@ == encode_spec(self@),
    {
        let mut parts: Vec<String> = Vec::new();
        if self.mainaccount {
            parts.push(String::from_str("mainaccount"));
        }
        proof {
            assert(views(parts@) =~= flag_part(self@.mainaccount, "mainaccount"@));
        }
        if self.connection {
            parts.push(String::from_str("connection"));
        }
        let ghost p2 = flag_part(self@.mainaccount, "mainaccount"@) + flag_part(
            self@.connection,
            "connection"@,
        );
        proof {
            assert(views(parts@) =~= p2);
        }
        let mut sp = String::from_str("session:");
        sp.append(self.session.as_str());
        parts.push(sp);
        let ghost p3 = p2 + seq!["session:"@ + self@.session];
        proof {
            assert(views(parts@) =~= p3);
        }
        push_access(&mut parts, "account", &self.account);
        let ghost p4 = p3 + access_parts("account"@, self@.account);
        proof {
            assert(views(parts@) =~= p4);
        }
        push_access(&mut parts, "trade", &self.trade);
        let ghost p5 = p4 + access_parts("trade"@, self@.trade);
        proof {
            assert(views(parts@) =~= p5);
        }
        push_access(&mut parts, "wallet", &self.wallet);
        let ghost p6 = p5 + access_parts("wallet"@, self@.wallet);
        proof {
            assert(views(parts@) =~= p6);
        }
        match self.expires_in {
            Some(n) => {
                let mut ep = String::from_str("expires_in:");
                let ns = u64_str(n);
                ep.append(ns.as_str());
                parts.push(ep);
            },
            None => {},
        }
        let ghost p7 = p6 + (match self@.expires_in {
            Some(n) => seq!["expires_in:"@ + dec_rep(n as nat)],
            None => Seq::empty(),
        });
        proof {
            assert(views(parts@) =~= p7);
        }
        match &self.ip {
            IP::Any => {
                parts.push(String::from_str("ip:*"));
            },
            IP::Unspecified => {},
            IP::This(a) => {
                let mut ipp = String::from_str("ip:");
                ipp.append(a.as_str());
                parts.push(ipp);
            },
        }
        let ghost p8 = p7 + (match self@.ip {
            IpV::Any => seq!["ip:*"@],
            IpV::Unspecified => Seq::empty(),
            IpV::This(a) => seq!["ip:"@ + a],
        });
        proof {
            assert(views(parts@) =~= p8);
        }
        push_access(&mut parts, "block_trade", &self.block_trade);
        let ghost p9 = p8 + access_parts("block_trade"@, self@.block_trade);
        proof {
            assert(views(parts@) =~= p9);
        }
        push_access(&mut parts, "block_rfq", &self.block_rfq);
        proof {
            assert(views(parts@) =~= scope_parts(self@));
        }
        let r = join_comma(&parts, 0);
        proof {
            assert(views(parts@).skip(0) =~= scope_parts(self@));
        }
        r
    }

    /// Decodes a scope string: tokens between commas are applied in order to
    /// the default scope; unknown tokens are ignored.
    pub fn parse(scope_str: &str) -> (r: Scope)
        ensures
            r@ == parse_spec(scope_str@),
    {
        let mut scope = Scope::default();
        let n = scope_str.unicode_len();
        let mut i: usize = 0;
        let mut start: usize = 0;
        proof {
            assert(scope_str@.subrange(0, 0) =~= Seq::<char>::empty());
            assert(scope_str@.skip(0) =~= scope_str@);
        }
        while i < n
            invariant
                n == scope_str@.len(),
                start <= i <= n,
                parse_step(
                    scope@,
                    scope_str@.subrange(start as int, i as int),
                    scope_str@.skip(i as int),
                ) == parse_spec(scope_str@),
            decreases n - i,
        {
            let ghost cur = scope_str@.subrange(start as int, i as int);
            let ghost rest = scope_str@.skip(i as int);
            let c = scope_str.get_char(i);
            proof {
                assert(rest[0] == c);
                assert(rest.drop_first() =~= scope_str@.skip(i + 1));
            }
            if c == ',' {
                let part = scope_str.substring_char(start, i);
                proof {
                    assert(part@ =~= cur);
                }
                apply_token_exec(&mut scope, part);
                start = i + 1;
                proof {
                    assert(scope_str@.subrange(start as int, i + 1) =~= Seq::<char>::empty());
                }
            } else {
                proof {
                    assert(scope_str@.subrange(start as int, i + 1) =~= cur.push(c));
                }
            }
            i += 1;
        }
        let part = scope_str.substring_char(start, n);
        proof {
            assert(part@ =~= scope_str@.subrange(start as int, n as int));
            assert(scope_str@.skip(n as int) =~= Seq::<char>::empty());
        }
        apply_token_exec(&mut scope, part);
        scope
    }
}

/// The views of a list of strings.
pub open spec fn views(v: Seq<String>) -> Seq<Seq<char>> {
    v.map_values(|s: String| s@)
}

/// Pushes the encoded token of one access field, if any.
fn push_access(parts: &mut Vec<String>, name: &str, a: &Access)
    ensures
        views(final(parts)@) == views(old(parts)@) + access_parts(name@, *a),
{
    let ghost before = views(parts@);
    match a {
        Access::ReadOnly => {
            let mut s = String::from_str(name);
            s.append(":read");
            parts.push(s);
            proof {
                assert(views(parts@) =~= before + access_parts(name@, *a));
            }
        },
        Access::ReadWrite => {
            let mut s = String::from_str(name);
            s.append(":write");
            parts.push(s);
            proof {
                assert(views(parts@) =~= before + access_parts(name@, *a));
            }
        },
        Access::Absent => {
            proof {
                assert(views(parts@) =~= before + access_parts(name@, *a));
            }
        },
    }
}

/// Joins the strings from a position on with commas.
fn join_comma(parts: &Vec<String>, from: usize) -> (r: String)
    requires
        from <= parts@.len(),
    ensures
        r@ == join(views(parts@).skip(from as int)),
    decreases parts@.len() - from,
{
    proof {
        reveal_strlit(",");
    }
    if from == parts.len() {
        let r = String::new();
        proof {
            assert(views(parts@).skip(from as int) =~= Seq::<Seq<char>>::empty());
        }
        r
    } else if from + 1 == parts.len() {
        let r = parts[from].clone();
        proof {
            assert(views(parts@).skip(from as int).len() == 1);
            assert(views(parts@).skip(from as int)[0] == r@);
        }
        r
    } else {
        let mut s = parts[from].clone();
        s.append(",");
        let rest = join_comma(parts, from + 1);
        s.append(rest.as_str());
        proof {
            let tail = views(parts@).skip(from as int);
            assert(tail.len() >= 2);
            assert(tail[0] == parts@[from as int]@);
            assert(tail.drop_first() =~= views(parts@).skip(from + 1));
            assert(","@ =~= seq![',']);
            assert(s@ =~= tail[0] + seq![','] + join(tail.drop_first()));
        }
        s
    }
}

/// Applies one decoded token to the scope.
fn apply_token_exec(scope: &mut Scope, p: &str)
    ensures
        final(scope)@ == apply_token(old(scope)@, p@),
{
    if str_eq(p, "mainaccount") {
        scope.mainaccount = true;
    } else if str_eq(p, "connection") {
        scope.connection = true;
    } else if str_starts_with(p, "session:") {
        proof {
            reveal_strlit("session:");
        }
        let rest = p.substring_char(8, p.unicode_len());
        proof {
            assert(rest@ =~= after(p@, "session:"@));
        }
        scope.session = String::from_str(rest);
    } else if str_eq(p, "account:read") {
        scope.account = Access::ReadOnly;
    } else if str_eq(p, "account:write") {
        scope.account = Access::ReadWrite;
    } else if str_eq(p, "trade:read") {
        scope.trade = Access::ReadOnly;
    } else if str_eq(p, "trade:write") {
        scope.trade = Access::ReadWrite;
    } else if str_eq(p, "wallet:read") {
        scope.wallet = Access::ReadOnly;
    } else if str_eq(p, "wallet:write") {
        scope.wallet = Access::ReadWrite;
    } else if str_starts_with(p, "expires_in:") {
        proof {
            reveal_strlit("expires_in:");
        }
        let rest = p.substring_char(11, p.unicode_len());
        proof {
            assert(rest@ =~= after(p@, "expires_in:"@));
        }
        let field = colon_prefix(rest);
        match parse_u64(field) {
            Some(v) => {
                scope.expires_in = Some(v);
            },
            None => {},
        }
    } else if str_eq(p, "ip:*") {
        scope.ip = IP::Any;
    } else if str_starts_with(p, "ip:") {
        proof {
            reveal_strlit("ip:");
        }
        let rest = p.substring_char(3, p.unicode_len());
        proof {
            assert(rest@ =~= after(p@, "ip:"@));
        }
        let field = colon_prefix(rest);
        scope.ip = IP::This(String::from_str(field));
    } else if str_eq(p, "block_trade:read") {
        scope.block_trade = Access::ReadOnly;
    } else if str_eq(p, "block_trade:write") {
        scope.block_trade = Access::ReadWrite;
    } else if str_eq(p, "block_rfq:read") {
        scope.block_rfq = Access::ReadOnly;
    } else if str_eq(p, "block_rfq:write") {
        scope.block_rfq = Access::ReadWrite;
    }
}

/// The slice of a string before its first colon; the whole string when it
/// has none.
fn colon_prefix<'a>(s: &'a str) -> (r: &'a str)
    ensures
        r@ == colon_field(s@),
{
    let n = s.unicode_len();
    let mut i: usize = 0;
    while i < n
        invariant
            n == s@.len(),
            i <= n,
            forall|j: int| 0 <= j < i ==> s@[j] != ':',
        decreases n - i,
    {
        if s.get_char(i) == ':' {
            proof {
                lemma_first_at_is(s@, ':', i as int);
            }
            return s.substring_char(0, i);
        }
        i += 1;
    }
    proof {
        lemma_first_at_absent(s@, ':');
        assert(s@.take(n as int) =~= s@);
    }
    s.substring_char(0, n)
}


/// Every token in the list is free of commas.
pub open spec fn all_comma_free(ps: Seq<Seq<char>>) -> bool {
    forall|i: int| 0 <= i < ps.len() ==> comma_free(ps[i])
}

proof fn lemma_comma_free_concat(a: Seq<char>, b: Seq<char>)
    requires
        comma_free(a),
        comma_free(b),
    ensures
        comma_free(a + b),
{
    assert forall|i: int| 0 <= i < (a + b).len() implies (a + b)[i] != ',' by {
        if i < a.len() {
            assert((a + b)[i] == a[i]);
        } else {
            assert((a + b)[i] == b[i - a.len()]);
        }
    }
}

proof fn lemma_all_comma_free_concat(a: Seq<Seq<char>>, b: Seq<Seq<char>>)
    requires
        all_comma_free(a),
        all_comma_free(b),
    ensures
        all_comma_free(a + b),
{
    assert forall|i: int| 0 <= i < (a + b).len() implies comma_free((a + b)[i]) by {
        if i < a.len() {
            assert((a + b)[i] == a[i]);
        } else {
            assert((a + b)[i] == b[i - a.len()]);
        }
    }
}

/// A token with no comma is consumed whole at the end of the text.
proof fn lemma_parse_terminal(acc: ScopeV, cur: Seq<char>, p: Seq<char>)
    requires
        comma_free(p),
    ensures
        parse_step(acc, cur, p) == apply_token(acc, cur + p),
    decreases p.len(),
{
    if p.len() == 0 {
        assert(cur + p =~= cur);
    } else {
        assert(p[0] != ',');
        assert forall|i: int| 0 <= i < p.drop_first().len() implies p.drop_first()[i] != ',' by {
            assert(p[i + 1] != ',');
        }
        lemma_parse_terminal(acc, cur.push(p[0]), p.drop_first());
        assert(cur + p =~= cur.push(p[0]) + p.drop_first());
    }
}

/// A comma closes the token before it; decoding then continues on the rest.
proof fn lemma_parse_peel(acc: ScopeV, cur: Seq<char>, p: Seq<char>, rest: Seq<char>)
    requires
        comma_free(p),
    ensures
        parse_step(acc, cur, p + seq![','] + rest) == parse_step(
            apply_token(acc, cur + p),
            Seq::empty(),
            rest,
        ),
    decreases p.len(),
{
    let t = p + seq![','] + rest;
    if p.len() == 0 {
        assert(t[0] == ',');
        assert(t.drop_first() =~= rest);
        assert(cur + p =~= cur);
    } else {
        assert(t[0] == p[0]);
        assert(t[0] != ',');
        assert(t.drop_first() =~= p.drop_first() + seq![','] + rest);
        assert forall|i: int| 0 <= i < p.drop_first().len() implies p.drop_first()[i] != ',' by {
            assert(p[i + 1] != ',');
        }
        lemma_parse_peel(acc, cur.push(p[0]), p.drop_first(), rest);
        assert(cur + p =~= cur.push(p[0]) + p.drop_first());
    }
}

/// Folding the token effects over a token list, from the front.
pub open spec fn fold_apply(acc: ScopeV, ps: Seq<Seq<char>>) -> ScopeV
    decreases ps.len(),
{
    if ps.len() == 0 {
        acc
    } else {
        fold_apply(apply_token(acc, ps[0]), ps.drop_first())
    }
}

/// Decoding a comma-joined token list applies the tokens in order.
proof fn lemma_parse_join(acc: ScopeV, ps: Seq<Seq<char>>)
    requires
        ps.len() >= 1,
        all_comma_free(ps),
    ensures
        parse_step(acc, Seq::empty(), join(ps)) == fold_apply(acc, ps),
    decreases ps.len(),
{
    if ps.len() == 1 {
        lemma_parse_terminal(acc, Seq::empty(), ps[0]);
        assert(Seq::empty() + ps[0] =~= ps[0]);
        assert(join(ps) == ps[0]);
        assert(parse_step(acc, Seq::empty(), join(ps)) == apply_token(acc, ps[0]));
        assert(ps.drop_first().len() == 0);
        assert(fold_apply(acc, ps) == fold_apply(apply_token(acc, ps[0]), ps.drop_first()));
        assert(fold_apply(apply_token(acc, ps[0]), ps.drop_first()) == apply_token(acc, ps[0]));
    } else {
        lemma_parse_peel(acc, Seq::empty(), ps[0], join(ps.drop_first()));
        assert(Seq::empty() + ps[0] =~= ps[0]);
        assert forall|i: int|
            0 <= i < ps.drop_first().len() implies comma_free(ps.drop_first()[i]) by {
            assert(ps.drop_first()[i] == ps[i + 1]);
        }
        lemma_parse_join(apply_token(acc, ps[0]), ps.drop_first());
    }
}

proof fn lemma_fold_concat(acc: ScopeV, a: Seq<Seq<char>>, b: Seq<Seq<char>>)
    ensures
        fold_apply(acc, a + b) == fold_apply(fold_apply(acc, a), b),
    decreases a.len(),
{
    if a.len() == 0 {
        assert(a + b =~= b);
    } else {
        assert((a + b)[0] == a[0]);
        assert((a + b).drop_first() =~= a.drop_first() + b);
        lemma_fold_concat(apply_token(acc, a[0]), a.drop_first(), b);
    }
}

proof fn lemma_fold_one(acc: ScopeV, t: Seq<char>)
    ensures
        fold_apply(acc, seq![t]) == apply_token(acc, t),
{
    let ps = seq![t];
    assert(ps.len() == 1);
    assert(ps[0] == t);
    assert(ps.drop_first() =~= Seq::<Seq<char>>::empty());
    assert(fold_apply(apply_token(acc, t), ps.drop_first()) == apply_token(acc, t));
}

proof fn lemma_fold_flag(acc: ScopeV, b: bool, tok: Seq<char>)
    ensures
        fold_apply(acc, flag_part(b, tok)) == (if b {
            apply_token(acc, tok)
        } else {
            acc
        }),
{
    if b {
        lemma_fold_one(acc, tok);
    }
}

proof fn lemma_fold_access(acc: ScopeV, name: Seq<char>, a: Access)
    ensures
        fold_apply(acc, access_parts(name, a)) == (match a {
            Access::ReadOnly => apply_token(acc, name + ":read"@),
            Access::ReadWrite => apply_token(acc, name + ":write"@),
            Access::Absent => acc,
        }),
{
    match a {
        Access::ReadOnly => lemma_fold_one(acc, name + ":read"@),
        Access::ReadWrite => lemma_fold_one(acc, name + ":write"@),
        Access::Absent => {},
    }
}

/// A token whose first character differs from a prefix's first character
/// does not begin with it.
proof fn lemma_not_starts(p: Seq<char>, pre: Seq<char>)
    requires
        pre.len() > 0,
        p.len() >= pre.len() ==> p[0] != pre[0],
    ensures
        !starts(p, pre),
{
    if p.len() >= pre.len() {
        assert(p.take(pre.len() as int)[0] == p[0]);
    }
}

/// What each fixed token does to a scope under decoding.
proof fn lemma_apply_fixed(acc: ScopeV)
    ensures
        apply_token(acc, "mainaccount"@) == (ScopeV { mainaccount: true, ..acc }),
        apply_token(acc, "connection"@) == (ScopeV { connection: true, ..acc }),
        apply_token(acc, "account"@ + ":read"@) == (ScopeV { account: Access::ReadOnly, ..acc }),
        apply_token(acc, "account"@ + ":write"@) == (ScopeV { account: Access::ReadWrite, ..acc }),
        apply_token(acc, "trade"@ + ":read"@) == (ScopeV { trade: Access::ReadOnly, ..acc }),
        apply_token(acc, "trade"@ + ":write"@) == (ScopeV { trade: Access::ReadWrite, ..acc }),
        apply_token(acc, "wallet"@ + ":read"@) == (ScopeV { wallet: Access::ReadOnly, ..acc }),
        apply_token(acc, "wallet"@ + ":write"@) == (ScopeV { wallet: Access::ReadWrite, ..acc }),
        apply_token(acc, "ip:*"@) == (ScopeV { ip: IpV::Any, ..acc }),
        apply_token(acc, "block_trade"@ + ":read"@) == (
        ScopeV { block_trade: Access::ReadOnly, ..acc }),
        apply_token(acc, "block_trade"@ + ":write"@) == (
        ScopeV { block_trade: Access::ReadWrite, ..acc }),
        apply_token(acc, "block_rfq"@ + ":read"@) == (
        ScopeV { block_rfq: Access::ReadOnly, ..acc }),
        apply_token(acc, "block_rfq"@ + ":write"@) == (
        ScopeV { block_rfq: Access::ReadWrite, ..acc }),
{
    reveal_strlit("mainaccount");
    reveal_strlit("connection");
    reveal_strlit("session:");
    reveal_strlit("account:read");
    reveal_strlit("account:write");
    reveal_strlit("trade:read");
    reveal_strlit("trade:write");
    reveal_strlit("wallet:read");
    reveal_strlit("wallet:write");
    reveal_strlit("expires_in:");
    reveal_strlit("ip:*");
    reveal_strlit("ip:");
    reveal_strlit("block_trade:read");
    reveal_strlit("block_trade:write");
    reveal_strlit("block_rfq:read");
    reveal_strlit("block_rfq:write");
    reveal_strlit("account");
    reveal_strlit("trade");
    reveal_strlit("wallet");
    reveal_strlit("block_trade");
    reveal_strlit("block_rfq");
    reveal_strlit(":read");
    reveal_strlit(":write");
    assert("account"@ + ":read"@ =~= "account:read"@);
    assert("account"@ + ":write"@ =~= "account:write"@);
    assert("trade"@ + ":read"@ =~= "trade:read"@);
    assert("trade"@ + ":write"@ =~= "trade:write"@);
    assert("wallet"@ + ":read"@ =~= "wallet:read"@);
    assert("wallet"@ + ":write"@ =~= "wallet:write"@);
    assert("block_trade"@ + ":read"@ =~= "block_trade:read"@);
    assert("block_trade"@ + ":write"@ =~= "block_trade:write"@);
    assert("block_rfq"@ + ":read"@ =~= "block_rfq:read"@);
    assert("block_rfq"@ + ":write"@ =~= "block_rfq:write"@);
    assert("mainaccount"@.len() == 11);
    assert("connection"@.len() == 10);
    assert("session:"@.len() == 8);
    assert("account:read"@.len() == 12);
    assert("account:write"@.len() == 13);
    assert("trade:read"@.len() == 10);
    assert("trade:write"@.len() == 11);
    assert("wallet:read"@.len() == 11);
    assert("wallet:write"@.len() == 12);
    assert("expires_in:"@.len() == 11);
    assert("ip:*"@.len() == 4);
    assert("ip:"@.len() == 3);
    assert("block_trade:read"@.len() == 16);
    assert("block_trade:write"@.len() == 17);
    assert("block_rfq:read"@.len() == 14);
    assert("block_rfq:write"@.len() == 15);
    assert("connection"@[0] != "mainaccount"@[0]);
    assert("trade:read"@[0] != "connection"@[0]);
    assert("trade:write"@[0] != "mainaccount"@[0]);
    assert("wallet:read"@[0] != "mainaccount"@[0]);
    assert("wallet:read"@[0] != "trade:write"@[0]);
    assert("wallet:write"@[0] != "account:read"@[0]);
    assert("ip:*"@[0] != "mainaccount"@[0]);
    assert("ip:*"@[0] != "connection"@[0]);
    assert("ip:*"@[0] != "trade:read"@[0]);
    lemma_not_starts("account:read"@, "session:"@);
    lemma_not_starts("account:write"@, "session:"@);
    lemma_not_starts("trade:read"@, "session:"@);
    lemma_not_starts("trade:write"@, "session:"@);
    lemma_not_starts("wallet:read"@, "session:"@);
    lemma_not_starts("wallet:write"@, "session:"@);
    lemma_not_starts("ip:*"@, "session:"@);
    lemma_not_starts("ip:*"@, "expires_in:"@);
    lemma_not_starts("block_trade:read"@, "session:"@);
    lemma_not_starts("block_trade:read"@, "expires_in:"@);
    lemma_not_starts("block_trade:read"@, "ip:"@);
    lemma_not_starts("block_trade:write"@, "session:"@);
    lemma_not_starts("block_trade:write"@, "expires_in:"@);
    lemma_not_starts("block_trade:write"@, "ip:"@);
    lemma_not_starts("block_rfq:read"@, "session:"@);
    lemma_not_starts("block_rfq:read"@, "expires_in:"@);
    lemma_not_starts("block_rfq:read"@, "ip:"@);
    lemma_not_starts("block_rfq:write"@, "session:"@);
    lemma_not_starts("block_rfq:write"@, "expires_in:"@);
    lemma_not_starts("block_rfq:write"@, "ip:"@);
}


/// A session name beginning the rest of a `session:` token is taken whole.
proof fn lemma_apply_session(acc: ScopeV, name: Seq<char>)
    ensures
        apply_token(acc, "session:"@ + name) == (ScopeV { session: name, ..acc }),
{
    reveal_strlit("mainaccount");
    reveal_strlit("connection");
    reveal_strlit("session:");
    let p = "session:"@ + name;
    assert(p[0] == "session:"@[0]);
    assert(p.take(8) =~= "session:"@);
    assert(starts(p, "session:"@));
    assert(after(p, "session:"@) =~= name);
}

/// An `expires_in:` token carrying a canonical number sets the expiry.
proof fn lemma_apply_expires(acc: ScopeV, n: u64)
    ensures
        apply_token(acc, "expires_in:"@ + dec_rep(n as nat)) == (
        ScopeV { expires_in: Some(n), ..acc }),
{
    reveal_strlit("mainaccount");
    reveal_strlit("connection");
    reveal_strlit("session:");
    reveal_strlit("account:read");
    reveal_strlit("account:write");
    reveal_strlit("trade:read");
    reveal_strlit("trade:write");
    reveal_strlit("wallet:read");
    reveal_strlit("wallet:write");
    reveal_strlit("expires_in:");
    let ds = dec_rep(n as nat);
    let p = "expires_in:"@ + ds;
    crate::strutil::lemma_dec_rep_digits(n as nat);
    assert(p[0] == "expires_in:"@[0]);
    lemma_not_starts(p, "session:"@);
    assert(p.take(11) =~= "expires_in:"@);
    assert(starts(p, "expires_in:"@));
    assert(after(p, "expires_in:"@) =~= ds);
    assert forall|i: int| 0 <= i < ds.len() implies ds[i] != ':' by {
        assert(crate::strutil::is_digit(ds[i]));
    }
    lemma_first_at_absent(ds, ':');
    assert(colon_field(ds) =~= ds);
    crate::strutil::lemma_dec_roundtrip(n);
}

/// An `ip:` token carrying a plain address sets the IP restriction.
proof fn lemma_apply_ip(acc: ScopeV, a: Seq<char>)
    requires
        colon_free(a),
        a != seq!['*'],
    ensures
        apply_token(acc, "ip:"@ + a) == (ScopeV { ip: IpV::This(a), ..acc }),
{
    reveal_strlit("mainaccount");
    reveal_strlit("connection");
    reveal_strlit("session:");
    reveal_strlit("account:read");
    reveal_strlit("account:write");
    reveal_strlit("trade:read");
    reveal_strlit("trade:write");
    reveal_strlit("wallet:read");
    reveal_strlit("wallet:write");
    reveal_strlit("expires_in:");
    reveal_strlit("ip:*");
    reveal_strlit("ip:");
    let p = "ip:"@ + a;
    assert(p[0] == "ip:"@[0]);
    lemma_not_starts(p, "session:"@);
    lemma_not_starts(p, "expires_in:"@);
    assert(p != "ip:*"@) by {
        if p == "ip:*"@ {
            assert(a.len() == 1);
            assert(p[3] == a[0]);
            assert("ip:*"@[3] == '*');
            assert(a =~= seq!['*']);
        }
    }
    assert(p.take(3) =~= "ip:"@);
    assert(starts(p, "ip:"@));
    assert(after(p, "ip:"@) =~= a);
    lemma_first_at_absent(a, ':');
    assert(colon_field(a) =~= a);
}

/// A scope the canonical codec can round-trip: the session name carries no
/// comma, and an explicit IP restriction carries no comma or colon and is
/// not the wildcard star.
pub open spec fn wf_scope(v: ScopeV) -> bool {
    &&& comma_free(v.session)
    &&& (v.ip matches IpV::This(a) ==> comma_free(a) && colon_free(a) && a != seq!['*'])
}

/// Decoding a canonical encoding gives the scope back: `parse` after `dump`
/// is the identity on every well-formed scope value, the empty and default
/// ones included.
#[verifier::rlimit(100)]
pub proof fn lemma_scope_roundtrip(v: ScopeV)
    requires
        wf_scope(v),
    ensures
        parse_spec(encode_spec(v)) == v,
{
    reveal_strlit("mainaccount");
    reveal_strlit("connection");
    reveal_strlit("session:");
    reveal_strlit("account");
    reveal_strlit("trade");
    reveal_strlit("wallet");
    reveal_strlit("block_trade");
    reveal_strlit("block_rfq");
    reveal_strlit(":read");
    reveal_strlit(":write");
    reveal_strlit("expires_in:");
    reveal_strlit("ip:*");
    reveal_strlit("ip:");
    let d = default_scope();
    let s1 = flag_part(v.mainaccount, "mainaccount"@);
    let s2 = flag_part(v.connection, "connection"@);
    let s3 = seq!["session:"@ + v.session];
    let s4 = access_parts("account"@, v.account);
    let s5 = access_parts("trade"@, v.trade);
    let s6 = access_parts("wallet"@, v.wallet);
    let s7 = (match v.expires_in {
        Some(n) => seq!["expires_in:"@ + dec_rep(n as nat)],
        None => Seq::<Seq<char>>::empty(),
    });
    let s8 = (match v.ip {
        IpV::Any => seq!["ip:*"@],
        IpV::Unspecified => Seq::<Seq<char>>::empty(),
        IpV::This(a) => seq!["ip:"@ + a],
    });
    let s9 = access_parts("block_trade"@, v.block_trade);
    let s10 = access_parts("block_rfq"@, v.block_rfq);
    let ps = scope_parts(v);
    assert(ps == s1 + s2 + s3 + s4 + s5 + s6 + s7 + s8 + s9 + s10);

    // every token is comma-free
    assert(comma_free("mainaccount"@));
    assert(comma_free("connection"@));
    assert(comma_free("session:"@));
    assert(comma_free("account"@ + ":read"@));
    assert(comma_free("account"@ + ":write"@));
    assert(comma_free("trade"@ + ":read"@));
    assert(comma_free("trade"@ + ":write"@));
    assert(comma_free("wallet"@ + ":read"@));
    assert(comma_free("wallet"@ + ":write"@));
    assert(comma_free("expires_in:"@));
    assert(comma_free("ip:*"@));
    assert(comma_free("ip:"@));
    assert(comma_free("block_trade"@ + ":read"@));
    assert(comma_free("block_trade"@ + ":write"@));
    assert(comma_free("block_rfq"@ + ":read"@));
    assert(comma_free("block_rfq"@ + ":write"@));
    lemma_comma_free_concat("session:"@, v.session);
    assert(all_comma_free(s1));
    assert(all_comma_free(s2));
    assert(all_comma_free(s3));
    assert(all_comma_free(s4));
    assert(all_comma_free(s5));
    assert(all_comma_free(s6));
    assert(all_comma_free(s7)) by {
        match v.expires_in {
            Some(n) => {
                crate::strutil::lemma_dec_rep_digits(n as nat);
                assert forall|i: int|
                    0 <= i < dec_rep(n as nat).len() implies dec_rep(n as nat)[i] != ',' by {
                    assert(crate::strutil::is_digit(dec_rep(n as nat)[i]));
                }
                lemma_comma_free_concat("expires_in:"@, dec_rep(n as nat));
                assert(s7[0] == "expires_in:"@ + dec_rep(n as nat));
            },
            None => {},
        }
    }
    assert(all_comma_free(s8)) by {
        match v.ip {
            IpV::This(a) => {
                lemma_comma_free_concat("ip:"@, a);
                assert(s8[0] == "ip:"@ + a);
            },
            _ => {},
        }
    }
    assert(all_comma_free(s9));
    assert(all_comma_free(s10));
    let p2 = s1 + s2;
    let p3 = p2 + s3;
    let p4 = p3 + s4;
    let p5 = p4 + s5;
    let p6 = p5 + s6;
    let p7 = p6 + s7;
    let p8 = p7 + s8;
    let p9 = p8 + s9;
    lemma_all_comma_free_concat(s1, s2);
    lemma_all_comma_free_concat(p2, s3);
    lemma_all_comma_free_concat(p3, s4);
    lemma_all_comma_free_concat(p4, s5);
    lemma_all_comma_free_concat(p5, s6);
    lemma_all_comma_free_concat(p6, s7);
    lemma_all_comma_free_concat(p7, s8);
    lemma_all_comma_free_concat(p8, s9);
    lemma_all_comma_free_concat(p9, s10);
    assert(ps.len() >= 1);
    lemma_parse_join(d, ps);

    // fold the segments, from the left
    lemma_fold_concat(d, s1, s2);
    lemma_fold_concat(d, p2, s3);
    lemma_fold_concat(d, p3, s4);
    lemma_fold_concat(d, p4, s5);
    lemma_fold_concat(d, p5, s6);
    lemma_fold_concat(d, p6, s7);
    lemma_fold_concat(d, p7, s8);
    lemma_fold_concat(d, p8, s9);
    lemma_fold_concat(d, p9, s10);

    let a1 = fold_apply(d, s1);
    lemma_fold_flag(d, v.mainaccount, "mainaccount"@);
    lemma_apply_fixed(d);
    let c1 = ScopeV { mainaccount: v.mainaccount, ..d };
    assert(a1 =~= c1);

    let a2 = fold_apply(a1, s2);
    lemma_fold_flag(a1, v.connection, "connection"@);
    lemma_apply_fixed(a1);
    let c2 = ScopeV { connection: v.connection, ..c1 };
    assert(a2 =~= c2);

    let a3 = fold_apply(a2, s3);
    lemma_fold_one(a2, "session:"@ + v.session);
    lemma_apply_session(a2, v.session);
    let c3 = ScopeV { session: v.session, ..c2 };
    assert(a3 =~= c3);

    let a4 = fold_apply(a3, s4);
    lemma_fold_access(a3, "account"@, v.account);
    lemma_apply_fixed(a3);
    let c4 = ScopeV { account: v.account, ..c3 };
    assert(a4 =~= c4);

    let a5 = fold_apply(a4, s5);
    lemma_fold_access(a4, "trade"@, v.trade);
    lemma_apply_fixed(a4);
    let c5 = ScopeV { trade: v.trade, ..c4 };
    assert(a5 =~= c5);

    let a6 = fold_apply(a5, s6);
    lemma_fold_access(a5, "wallet"@, v.wallet);
    lemma_apply_fixed(a5);
    let c6 = ScopeV { wallet: v.wallet, ..c5 };
    assert(a6 =~= c6);

    let a7 = fold_apply(a6, s7);
    let c7 = ScopeV { expires_in: v.expires_in, ..c6 };
    assert(a7 =~= c7) by {
        match v.expires_in {
            Some(n) => {
                lemma_fold_one(a6, "expires_in:"@ + dec_rep(n as nat));
                lemma_apply_expires(a6, n);
            },
            None => {},
        }
    }

    let a8 = fold_apply(a7, s8);
    let c8 = ScopeV { ip: v.ip, ..c7 };
    assert(a8 =~= c8) by {
        match v.ip {
            IpV::Any => {
                lemma_fold_one(a7, "ip:*"@);
                lemma_apply_fixed(a7);
            },
            IpV::Unspecified => {},
            IpV::This(a) => {
                lemma_fold_one(a7, "ip:"@ + a);
                lemma_apply_ip(a7, a);
            },
        }
    }

    let a9 = fold_apply(a8, s9);
    lemma_fold_access(a8, "block_trade"@, v.block_trade);
    lemma_apply_fixed(a8);
    let c9 = ScopeV { block_trade: v.block_trade, ..c8 };
    assert(a9 =~= c9);

    let a10 = fold_apply(a9, s10);
    lemma_fold_access(a9, "block_rfq"@, v.block_rfq);
    lemma_apply_fixed(a9);
    assert(a10 =~= v);

    assert(fold_apply(d, ps) == a10);
}

} // verus!
