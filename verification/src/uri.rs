//! The pairing URI, which a device shows as a QR code:
//! `fluxsync://pair/<key>?a=<address>,<address>&f=<word>.<word>...`.
use vstd::prelude::*;
use vstd::string::*;

use crate::net::SocketAddr;
use crate::text::{
    after_first, before_first, join_texts, lemma_first_at, lemma_one_piece, pieces,
    pieces_of_joined, same_text, split_first, split_text, strip_prefix, with_between,
};
use crate::wire::views;

verus! {

/// What every pairing URI starts with.
pub const PAIR_SCHEME: &'static str = "fluxsync://pair/";

/// The pairing URI of a device.
pub open spec fn pair_uri(pubkey: Seq<char>, addr: Seq<char>, words: Seq<Seq<char>>) -> Seq<char> {
    PAIR_SCHEME@ + pubkey + "?a="@ + addr + "&f="@ + with_between(words, '.')
}

/// Writes a pairing URI.
pub fn build_pair_uri(pubkey_b32: &str, addr_hint: &str, fp_words: &Vec<String>) -> (r: String)
    ensures
        r@ == pair_uri(pubkey_b32@, addr_hint@, views(fp_words@)),
{
    let mut r = PAIR_SCHEME.to_owned();
    r.append(pubkey_b32);
    r.append("?a=");
    r.append(addr_hint);
    r.append("&f=");
    r.append(join_texts(fp_words, '.').as_str());
    r
}

/// What a pairing URI says.
#[derive(Debug)]
pub struct ParsedPairUri {
    pub pubkey_b32: String,
    /// Addresses to try, in order, as they are written.
    pub addr_hints: Vec<String>,
    /// Words to compare, for display.
    pub fp_words: Vec<String>,
}

/// View of a [`ParsedPairUri`].
#[verifier::ext_equal]
pub ghost struct PairUriView {
    pub pubkey_b32: Seq<char>,
    pub addr_hints: Seq<Seq<char>>,
    pub fp_words: Seq<Seq<char>>,
}

impl View for ParsedPairUri {
    type V = PairUriView;

    open spec fn view(&self) -> PairUriView {
        PairUriView {
            pubkey_b32: self.pubkey_b32@,
            addr_hints: views(self.addr_hints@),
            fp_words: views(self.fp_words@),
        }
    }
}

/// Why a text is no pairing URI.
#[derive(Debug, Clone, Copy, PartialEq, Eq, Structural)]
pub enum PairUriError {
    /// It does not start with [`PAIR_SCHEME`].
    BadScheme,
    /// It names no key.
    MissingPubkey,
}

/// How an error is told.
pub open spec fn uri_error_text(e: PairUriError) -> Seq<char> {
    match e {
        PairUriError::BadScheme => "scheme is not fluxsync://pair/"@,
        PairUriError::MissingPubkey => "missing pubkey segment"@,
    }
}

/// Computes [`uri_error_text`].
pub fn pair_uri_error_text(e: PairUriError) -> (r: &'static str)
    ensures
        r@ == uri_error_text(e),
{
    match e {
        PairUriError::BadScheme => "scheme is not fluxsync://pair/",
        PairUriError::MissingPubkey => "missing pubkey segment",
    }
}

/// The texts of a list that are not empty.
pub open spec fn non_empty(s: Seq<Seq<char>>) -> Seq<Seq<char>> {
    s.filter(|t: Seq<char>| t.len() > 0)
}

/// What the parameters `kvs` say, each in turn, the last of a name counting; other
/// names are passed over.
pub open spec fn read_params(pubkey: Seq<char>, kvs: Seq<Seq<char>>) -> PairUriView
    decreases kvs.len(),
{
    if kvs.len() == 0 {
        PairUriView { pubkey_b32: pubkey, addr_hints: Seq::empty(), fp_words: Seq::empty() }
    } else {
        let r = read_params(pubkey, kvs.drop_last());
        let k = before_first(kvs.last(), '=');
        let v = after_first(kvs.last(), '=');
        if k == "a"@ {
            PairUriView { addr_hints: non_empty(pieces(v, ',')), ..r }
        } else if k == "f"@ {
            PairUriView { fp_words: pieces(v, '.'), ..r }
        } else {
            r
        }
    }
}

/// What a text says as a pairing URI.
pub open spec fn parsed_uri(s: Seq<char>) -> Result<PairUriView, PairUriError> {
    if !PAIR_SCHEME@.is_prefix_of(s) {
        Err(PairUriError::BadScheme)
    } else {
        let rest = s.skip(PAIR_SCHEME@.len() as int);
        let pubkey = before_first(rest, '?');
        if pubkey.len() == 0 {
            Err(PairUriError::MissingPubkey)
        } else {
            Ok(read_params(pubkey, non_empty(pieces(after_first(rest, '?'), '&'))))
        }
    }
}

/// The texts of a list that are not empty.
fn drop_empty(texts: Vec<String>) -> (r: Vec<String>)
    ensures
        views(r@) == non_empty(views(texts@)),
{
    let ghost all = views(texts@);
    let ghost p = |t: Seq<char>| t.len() > 0;
    let mut r: Vec<String> = Vec::new();
    let mut i: usize = 0;
    proof {
        reveal(Seq::filter);
        assert(all.subrange(0, 0) =~= Seq::empty());
        assert(views(r@) =~= all.subrange(0, 0).filter(p));
    }
    while i < texts.len()
        invariant
            i <= texts@.len(),
            all == views(texts@),
            p == |t: Seq<char>| t.len() > 0,
            views(r@) == all.subrange(0, i as int).filter(p),
        decreases texts@.len() - i,
    {
        let ghost before = views(r@);
        proof {
            reveal(Seq::filter);
            let next = all.subrange(0, i + 1);
            assert(next.drop_last() =~= all.subrange(0, i as int));
            assert(next.last() == texts@[i as int]@);
        }
        if !texts[i].as_str().is_empty() {
            r.push(texts[i].clone());
            assert(views(r@) =~= before.push(texts@[i as int]@));
        }
        i = i + 1;
    }
    assert(all.subrange(0, all.len() as int) =~= all);
    r
}

/// Reads a pairing URI. Only the key is needed; parameters may be missing, and
/// unknown ones are passed over.
pub fn parse_pair_uri(s: &str) -> (r: Result<ParsedPairUri, PairUriError>)
    ensures
        match r {
            Ok(u) => parsed_uri(s@) == Ok::<PairUriView, PairUriError>(u@),
            Err(e) => parsed_uri(s@) == Err::<PairUriView, PairUriError>(e),
        },
{
    let rest = match strip_prefix(s, PAIR_SCHEME) {
        Some(rest) => rest,
        None => {
            return Err(PairUriError::BadScheme);
        },
    };
    let (pubkey_b32, query) = split_first(rest.as_str(), '?');
    if pubkey_b32.as_str().is_empty() {
        return Err(PairUriError::MissingPubkey);
    }
    let kvs = drop_empty(split_text(query.as_str(), '&'));
    let ghost all = views(kvs@);
    let ghost key = pubkey_b32@;
    let mut r = ParsedPairUri { pubkey_b32, addr_hints: Vec::new(), fp_words: Vec::new() };
    let mut i: usize = 0;
    assert(all.subrange(0, 0) =~= Seq::empty());
    assert(r@ =~= read_params(key, all.subrange(0, 0)));
    while i < kvs.len()
        invariant
            i <= kvs@.len(),
            all == views(kvs@),
            r@ == read_params(key, all.subrange(0, i as int)),
        decreases kvs@.len() - i,
    {
        proof {
            let next = all.subrange(0, i + 1);
            assert(next.drop_last() =~= all.subrange(0, i as int));
            assert(next.last() == kvs@[i as int]@);
        }
        let (k, v) = split_first(kvs[i].as_str(), '=');
        if same_text(k.as_str(), "a") {
            r.addr_hints = drop_empty(split_text(v.as_str(), ','));
        } else if same_text(k.as_str(), "f") {
            proof {
                reveal_strlit("a");
                reveal_strlit("f");
            }
            r.fp_words = split_text(v.as_str(), '.');
        }
        i = i + 1;
    }
    assert(all.subrange(0, all.len() as int) =~= all);
    Ok(r)
}

/// The addresses that could be read, in order.
pub open spec fn read_addrs(hints: Seq<Option<SocketAddr>>) -> Seq<SocketAddr>
    decreases hints.len(),
{
    if hints.len() == 0 {
        Seq::empty()
    } else {
        let rest = read_addrs(hints.drop_last());
        match hints.last() {
            Some(a) => rest.push(a),
            None => rest,
        }
    }
}

/// The addresses of a pairing URI that could be read, in order.
pub fn usable_addrs(hints: &Vec<Option<SocketAddr>>) -> (r: Vec<SocketAddr>)
    ensures
        r@ == read_addrs(hints@),
{
    let mut r: Vec<SocketAddr> = Vec::new();
    let mut i: usize = 0;
    assert(hints@.subrange(0, 0) =~= Seq::empty());
    while i < hints.len()
        invariant
            i <= hints@.len(),
            r@ == read_addrs(hints@.subrange(0, i as int)),
        decreases hints@.len() - i,
    {
        proof {
            let next = hints@.subrange(0, i + 1);
            assert(next.drop_last() =~= hints@.subrange(0, i as int));
            assert(next.last() == hints@[i as int]);
        }
        if let Some(a) = hints[i] {
            r.push(a);
        }
        i = i + 1;
    }
    assert(hints@.subrange(0, hints@.len() as int) =~= hints@);
    r
}

/// Reading a pairing URI gives back what was written into it, as long as the key
/// is not empty and holds no `?`, the addresses no `&`, and there are words that
/// hold neither `&` nor `.`.
pub proof fn uri_round_trip(pubkey: Seq<char>, addr: Seq<char>, words: Seq<Seq<char>>)
    requires
        pubkey.len() > 0,
        !pubkey.contains('?'),
        !addr.contains('&'),
        words.len() > 0,
        forall|i: int|
            0 <= i < words.len() ==> !(#[trigger] words[i]).contains('&') && !words[i].contains('.'),
    ensures
        parsed_uri(pair_uri(pubkey, addr, words)) == Ok::<PairUriView, PairUriError>(
            (PairUriView {
                pubkey_b32: pubkey,
                addr_hints: non_empty(pieces(addr, ',')),
                fp_words: words,
            }),
        ),
{
    reveal_strlit("?a=");
    reveal_strlit("&f=");
    reveal_strlit("a");
    reveal_strlit("f");
    let uri = pair_uri(pubkey, addr, words);
    let joined = with_between(words, '.');
    let a = seq!['a', '='] + addr;
    let f = seq!['f', '='] + joined;
    let query = a + seq!['&'] + f;
    let rest = pubkey + seq!['?'] + query;
    assert("?a="@ =~= seq!['?', 'a', '=']);
    assert("&f="@ =~= seq!['&', 'f', '=']);
    assert(uri =~= PAIR_SCHEME@ + rest);
    assert(PAIR_SCHEME@.is_prefix_of(uri)) by {
        assert(PAIR_SCHEME@ =~= uri.subrange(0, PAIR_SCHEME@.len() as int));
    }
    assert(uri.skip(PAIR_SCHEME@.len() as int) =~= rest);
    assert forall|j: int| 0 <= j < pubkey.len() implies rest[j] != '?' by {
        assert(pubkey[j] != '?');
    }
    lemma_first_at(rest, '?', pubkey.len() as int);
    assert(before_first(rest, '?') =~= pubkey);
    assert(after_first(rest, '?') =~= query);
    lemma_joined_without(words, '.', '&');
    assert(!a.contains('&')) by {
        assert forall|j: int| 0 <= j < a.len() implies a[j] != '&' by {
            if j >= 2 {
                assert(addr[j - 2] != '&');
            }
        }
    }
    assert(!f.contains('&')) by {
        assert forall|j: int| 0 <= j < f.len() implies f[j] != '&' by {
            if j >= 2 {
                assert(joined[j - 2] != '&');
            }
        }
    }
    let two = seq![a, f];
    assert(with_between(two, '&') =~= query) by {
        assert(two.drop_last() =~= seq![a]);
        assert(with_between(seq![a], '&') =~= a);
    }
    assert forall|i: int| 0 <= i < two.len() implies !(#[trigger] two[i]).contains('&') by {}
    pieces_of_joined(two, '&');
    let p = |t: Seq<char>| t.len() > 0;
    assert(two.filter(p) =~= two) by {
        reveal(Seq::filter);
        assert(two.drop_last() =~= seq![a]);
        assert(seq![a].drop_last() =~= Seq::empty());
        assert(Seq::<Seq<char>>::empty().filter(p) =~= Seq::empty());
        assert(seq![a].filter(p) =~= seq![a]);
    }
    assert(non_empty(pieces(query, '&')) == two);
    lemma_first_at(a, '=', 1);
    lemma_first_at(f, '=', 1);
    assert(before_first(a, '=') =~= "a"@);
    assert(before_first(f, '=') =~= "f"@);
    assert(after_first(a, '=') =~= addr);
    assert(after_first(f, '=') =~= joined);
    assert forall|i: int| 0 <= i < words.len() implies !(#[trigger] words[i]).contains('.') by {}
    pieces_of_joined(words, '.');
    let one = seq![a];
    assert(two.drop_last() =~= one);
    assert(one.drop_last() =~= Seq::empty());
    let none = read_params(pubkey, Seq::empty());
    let first = read_params(pubkey, one);
    assert(one.last() == a);
    assert(first == (PairUriView { addr_hints: non_empty(pieces(addr, ',')), ..none }));
    assert(two.last() == f);
    assert("f"@ != "a"@) by {
        assert("f"@[0] != "a"@[0]);
    }
}

/// Every address that is written into a pairing URI is read from it, in order, as
/// long as each is some text without `,` and `&`.
pub proof fn hints_round_trip(pubkey: Seq<char>, hints: Seq<Seq<char>>, words: Seq<Seq<char>>)
    requires
        pubkey.len() > 0,
        !pubkey.contains('?'),
        forall|i: int|
            0 <= i < hints.len() ==> (#[trigger] hints[i]).len() > 0 && !hints[i].contains(',')
                && !hints[i].contains('&'),
        words.len() > 0,
        forall|i: int|
            0 <= i < words.len() ==> !(#[trigger] words[i]).contains('&') && !words[i].contains('.'),
    ensures
        parsed_uri(pair_uri(pubkey, with_between(hints, ','), words)) == Ok::<
            PairUriView,
            PairUriError,
        >((PairUriView { pubkey_b32: pubkey, addr_hints: hints, fp_words: words })),
{
    let joined = with_between(hints, ',');
    lemma_joined_without(hints, ',', '&');
    uri_round_trip(pubkey, joined, words);
    if hints.len() == 0 {
        lemma_one_piece(joined, ',');
        reveal(Seq::filter);
        assert(seq![joined].drop_last() =~= Seq::empty());
        assert(non_empty(Seq::empty()) =~= Seq::empty());
        assert(non_empty(pieces(joined, ',')) =~= hints);
    } else {
        pieces_of_joined(hints, ',');
        lemma_none_empty(hints);
    }
}

/// The addresses of a device that are written into its pairing URI are those that
/// are read from it, in the same order, however an address is written: the form
/// has to read back, and to hold neither `,` nor `&`.
pub proof fn addresses_round_trip(
    pubkey: Seq<char>,
    addrs: Seq<SocketAddr>,
    words: Seq<Seq<char>>,
    write: spec_fn(SocketAddr) -> Seq<char>,
    read: spec_fn(Seq<char>) -> Option<SocketAddr>,
)
    requires
        pubkey.len() > 0,
        !pubkey.contains('?'),
        forall|i: int| #![trigger addrs[i]]
            0 <= i < addrs.len() ==> {
                &&& write(addrs[i]).len() > 0
                &&& !write(addrs[i]).contains(',')
                &&& !write(addrs[i]).contains('&')
                &&& read(write(addrs[i])) == Some(addrs[i])
            },
        words.len() > 0,
        forall|i: int|
            0 <= i < words.len() ==> !(#[trigger] words[i]).contains('&') && !words[i].contains('.'),
    ensures
        ({
            let hint = with_between(addrs.map_values(write), ',');
            parsed_uri(pair_uri(pubkey, hint, words)) matches Ok(u) && {
                &&& u.pubkey_b32 == pubkey
                &&& read_addrs(u.addr_hints.map_values(read)) == addrs
                &&& u.fp_words == words
            }
        }),
{
    let hints = addrs.map_values(write);
    assert forall|i: int| 0 <= i < hints.len() implies (#[trigger] hints[i]).len() > 0
        && !hints[i].contains(',') && !hints[i].contains('&') by {
        assert(hints[i] == write(addrs[i]));
    }
    hints_round_trip(pubkey, hints, words);
    let back = hints.map_values(read);
    assert forall|i: int| 0 <= i < addrs.len() implies #[trigger] back[i] == Some(addrs[i]) by {
        assert(hints[i] == write(addrs[i]));
    }
    lemma_all_read(back, addrs);
}

/// Where every address could be read, all of them are there.
proof fn lemma_all_read(hints: Seq<Option<SocketAddr>>, addrs: Seq<SocketAddr>)
    requires
        hints.len() == addrs.len(),
        forall|i: int| 0 <= i < addrs.len() ==> #[trigger] hints[i] == Some(addrs[i]),
    ensures
        read_addrs(hints) == addrs,
    decreases hints.len(),
{
    if hints.len() > 0 {
        lemma_all_read(hints.drop_last(), addrs.drop_last());
        assert(hints.last() == Some(addrs.last()));
        assert(addrs.drop_last().push(addrs.last()) =~= addrs);
    } else {
        assert(addrs =~= Seq::empty());
    }
}

/// Where no text is empty, none is left out.
proof fn lemma_none_empty(s: Seq<Seq<char>>)
    requires
        forall|i: int| 0 <= i < s.len() ==> (#[trigger] s[i]).len() > 0,
    ensures
        non_empty(s) == s,
    decreases s.len(),
{
    reveal(Seq::filter);
    if s.len() > 0 {
        let rest = s.drop_last();
        assert forall|i: int| 0 <= i < rest.len() implies (#[trigger] rest[i]).len() > 0 by {
            assert(rest[i] == s[i]);
        }
        lemma_none_empty(rest);
        assert(s[s.len() - 1].len() > 0);
        assert(rest.push(s.last()) =~= s);
    } else {
        assert(non_empty(s) =~= s);
    }
}

/// Joined texts hold a character only if one of them does, or it joins them.
proof fn lemma_joined_without(parts: Seq<Seq<char>>, between: char, c: char)
    requires
        between != c,
        forall|i: int| 0 <= i < parts.len() ==> !(#[trigger] parts[i]).contains(c),
    ensures
        !with_between(parts, between).contains(c),
    decreases parts.len(),
{
    if parts.len() > 1 {
        let rest = parts.drop_last();
        assert forall|i: int| 0 <= i < rest.len() implies !(#[trigger] rest[i]).contains(c) by {
            assert(rest[i] == parts[i]);
        }
        lemma_joined_without(rest, between, c);
        let w = with_between(rest, between);
        let whole = with_between(parts, between);
        assert(!parts[parts.len() - 1].contains(c));
        assert forall|j: int| 0 <= j < whole.len() implies whole[j] != c by {
            if j < w.len() {
                assert(w[j] != c);
            } else if j > w.len() {
                assert(parts.last()[j - w.len() - 1] != c);
            }
        }
    } else if parts.len() == 1 {
        assert(!parts[0].contains(c));
    }
}

/// Of the addresses that came with a pairing exactly those that could be read are
/// used.
pub proof fn readable_addresses_are_used(hints: Seq<Option<SocketAddr>>, a: SocketAddr)
    ensures
        read_addrs(hints).contains(a) == hints.contains(Some(a)),
        read_addrs(hints).len() <= hints.len(),
    decreases hints.len(),
{
    if hints.len() > 0 {
        let rest = hints.drop_last();
        let before = read_addrs(rest);
        let all = read_addrs(hints);
        readable_addresses_are_used(rest, a);
        if hints.contains(Some(a)) {
            let i = hints.index_of(Some(a));
            if i < rest.len() {
                assert(rest[i] == Some(a));
            }
        }
        if rest.contains(Some(a)) {
            assert(hints[rest.index_of(Some(a))] == Some(a));
        }
        assert(hints[hints.len() - 1] == hints.last());
        if before.contains(a) {
            assert(all[before.index_of(a)] == a);
        }
        if let Some(x) = hints.last() {
            assert(all[before.len() as int] == x);
            if all.contains(a) {
                let i = all.index_of(a);
                if i < before.len() {
                    assert(before[i] == a);
                }
            }
        }
    }
}

} // verus!
