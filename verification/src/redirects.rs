//! The redirect map: which of the URLs of a batch were redirected, and where to.

use vstd::hash_map::StringHashMap;
use vstd::prelude::*;

use crate::url::{texts, Url};

verus! {

/// Position `i` holds `source`, and its resolution led elsewhere.
pub open spec fn redirects_at(
    hosts: Seq<Seq<char>>,
    finals: Seq<Seq<char>>,
    i: int,
    source: Seq<char>,
) -> bool {
    &&& 0 <= i < hosts.len()
    &&& i < finals.len()
    &&& hosts[i] == source
    &&& finals[i] != source
}

/// Position `i` is the last one at which `source` was redirected.
pub open spec fn is_last_redirect(
    hosts: Seq<Seq<char>>,
    finals: Seq<Seq<char>>,
    i: int,
    source: Seq<char>,
) -> bool {
    &&& redirects_at(hosts, finals, i, source)
    &&& forall|j: int| redirects_at(hosts, finals, j, source) ==> j <= i
}

/// The last position at which `source` was redirected, if there is one.
pub open spec fn last_redirect(
    hosts: Seq<Seq<char>>,
    finals: Seq<Seq<char>>,
    source: Seq<char>,
) -> int {
    choose|i: int| is_last_redirect(hosts, finals, i, source)
}

/// The redirect map of a batch in which `hosts[i]` resolved to `finals[i]`.
///
/// It holds a URL when one of its occurrences in `hosts` was redirected, and
/// maps it to where the last such occurrence led. Positions that only one of
/// the two lists has play no part.
pub open spec fn redirect_map(hosts: Seq<Seq<char>>, finals: Seq<Seq<char>>) -> Map<
    Seq<char>,
    Seq<char>,
> {
    Map::new(
        |source: Seq<char>| exists|i: int| redirects_at(hosts, finals, i, source),
        |source: Seq<char>| finals[last_redirect(hosts, finals, source)],
    )
}

proof fn lemma_greatest_redirect(
    hosts: Seq<Seq<char>>,
    finals: Seq<Seq<char>>,
    source: Seq<char>,
    i: int,
) -> (m: int)
    requires
        redirects_at(hosts, finals, i, source),
    ensures
        is_last_redirect(hosts, finals, m, source),
    decreases hosts.len() - i,
{
    if exists|j: int| j > i && redirects_at(hosts, finals, j, source) {
        let j = choose|j: int| j > i && redirects_at(hosts, finals, j, source);
        lemma_greatest_redirect(hosts, finals, source, j)
    } else {
        i
    }
}

/// A key of the redirect map has a last position at which it was redirected,
/// and the map sends it to the final URL of that position.
pub proof fn lemma_last_redirect(
    hosts: Seq<Seq<char>>,
    finals: Seq<Seq<char>>,
    source: Seq<char>,
)
    requires
        redirect_map(hosts, finals).contains_key(source),
    ensures
        is_last_redirect(hosts, finals, last_redirect(hosts, finals, source), source),
        redirect_map(hosts, finals)[source] == finals[last_redirect(hosts, finals, source)],
{
    let i = choose|i: int| redirects_at(hosts, finals, i, source);
    let m = lemma_greatest_redirect(hosts, finals, source, i);
}

/// The position that `is_last_redirect` singles out is the one that
/// `last_redirect` names.
pub proof fn lemma_last_redirect_is(
    hosts: Seq<Seq<char>>,
    finals: Seq<Seq<char>>,
    i: int,
    source: Seq<char>,
)
    requires
        is_last_redirect(hosts, finals, i, source),
    ensures
        last_redirect(hosts, finals, source) == i,
        redirect_map(hosts, finals).contains_key(source),
        redirect_map(hosts, finals)[source] == finals[i],
{
    let m = last_redirect(hosts, finals, source);
    assert(is_last_redirect(hosts, finals, m, source));
}

/// Every key of the redirect map is one of the URLs of the batch.
pub proof fn lemma_keys_are_hosts(hosts: Seq<Seq<char>>, finals: Seq<Seq<char>>)
    ensures
        forall|source: Seq<char>| #[trigger]
            redirect_map(hosts, finals).contains_key(source) ==> hosts.contains(source),
{
    assert forall|source: Seq<char>| #[trigger]
        redirect_map(hosts, finals).contains_key(source) implies hosts.contains(source) by {
        let i = choose|i: int| redirects_at(hosts, finals, i, source);
        assert(hosts[i] == source);
    }
}

/// No entry of the redirect map leads a URL to itself.
pub proof fn lemma_no_entry_to_itself(hosts: Seq<Seq<char>>, finals: Seq<Seq<char>>)
    ensures
        forall|source: Seq<char>| #[trigger]
            redirect_map(hosts, finals).contains_key(source) ==> redirect_map(
                hosts,
                finals,
            )[source] != source,
{
    assert forall|source: Seq<char>| #[trigger]
        redirect_map(hosts, finals).contains_key(source) implies redirect_map(
        hosts,
        finals,
    )[source] != source by {
        lemma_last_redirect(hosts, finals, source);
    }
}

/// Where every URL resolves to itself, the redirect map is empty.
pub proof fn lemma_no_redirect_no_entry(hosts: Seq<Seq<char>>, finals: Seq<Seq<char>>)
    requires
        forall|i: int| 0 <= i < hosts.len() && i < finals.len() ==> finals[i] == hosts[i],
    ensures
        redirect_map(hosts, finals) == Map::<Seq<char>, Seq<char>>::empty(),
{
    assert(redirect_map(hosts, finals) =~= Map::<Seq<char>, Seq<char>>::empty());
}

/// One more resolution adds its entry where it is a redirect, over what the
/// map held for that URL, and changes nothing where it is none.
pub proof fn lemma_redirect_map_push(
    hosts: Seq<Seq<char>>,
    finals: Seq<Seq<char>>,
    host: Seq<char>,
    dest: Seq<char>,
)
    requires
        hosts.len() == finals.len(),
    ensures
        redirect_map(hosts.push(host), finals.push(dest)) == if host != dest {
            redirect_map(hosts, finals).insert(host, dest)
        } else {
            redirect_map(hosts, finals)
        },
{
    let n = hosts.len() as int;
    let hosts2 = hosts.push(host);
    let finals2 = finals.push(dest);
    let before = redirect_map(hosts, finals);
    let after = redirect_map(hosts2, finals2);
    let expected = if host != dest {
        before.insert(host, dest)
    } else {
        before
    };
    assert forall|i: int, source: Seq<char>| i != n implies (redirects_at(
        hosts2,
        finals2,
        i,
        source,
    ) <==> redirects_at(hosts, finals, i, source)) by {}
    assert forall|source: Seq<char>| after.contains_key(source) <==> expected.contains_key(
        source,
    ) by {
        if after.contains_key(source) {
            let i = choose|i: int| redirects_at(hosts2, finals2, i, source);
            if i != n {
                assert(redirects_at(hosts, finals, i, source));
            }
        }
        if expected.contains_key(source) {
            if host != dest && source == host {
                assert(redirects_at(hosts2, finals2, n, source));
            } else {
                let i = choose|i: int| redirects_at(hosts, finals, i, source);
                assert(redirects_at(hosts2, finals2, i, source));
            }
        }
    }
    assert forall|source: Seq<char>| after.contains_key(source) implies after[source]
        == expected[source] by {
        lemma_last_redirect(hosts2, finals2, source);
        let m = last_redirect(hosts2, finals2, source);
        if host != dest && source == host {
            assert(redirects_at(hosts2, finals2, n, source));
            assert(m == n);
        } else {
            assert(!redirects_at(hosts2, finals2, n, source));
            assert(redirects_at(hosts, finals, m, source));
            assert forall|j: int| redirects_at(hosts, finals, j, source) implies j <= m by {
                assert(redirects_at(hosts2, finals2, j, source));
            }
            lemma_last_redirect_is(hosts, finals, m, source);
        }
    }
    assert(after =~= expected);
}

/// Only the positions that both lists have count.
pub proof fn lemma_redirect_map_zip(hosts: Seq<Seq<char>>, finals: Seq<Seq<char>>, n: int)
    requires
        0 <= n <= hosts.len(),
        n <= finals.len(),
        n == hosts.len() || n == finals.len(),
    ensures
        redirect_map(hosts.take(n), finals.take(n)) == redirect_map(hosts, finals),
{
    let hosts1 = hosts.take(n);
    let finals1 = finals.take(n);
    let short = redirect_map(hosts1, finals1);
    let whole = redirect_map(hosts, finals);
    assert forall|i: int, source: Seq<char>|
        redirects_at(hosts1, finals1, i, source) <==> redirects_at(
            hosts,
            finals,
            i,
            source,
        ) by {}
    assert forall|source: Seq<char>| short.contains_key(source) <==> whole.contains_key(
        source,
    ) by {
        if short.contains_key(source) {
            let i = choose|i: int| redirects_at(hosts1, finals1, i, source);
            assert(redirects_at(hosts, finals, i, source));
        }
        if whole.contains_key(source) {
            let i = choose|i: int| redirects_at(hosts, finals, i, source);
            assert(redirects_at(hosts1, finals1, i, source));
        }
    }
    assert forall|source: Seq<char>| short.contains_key(source) implies short[source]
        == whole[source] by {
        lemma_last_redirect(hosts1, finals1, source);
        let m = last_redirect(hosts1, finals1, source);
        assert(redirects_at(hosts, finals, m, source));
        assert forall|j: int| redirects_at(hosts, finals, j, source) implies j <= m by {
            assert(redirects_at(hosts1, finals1, j, source));
        }
        lemma_last_redirect_is(hosts, finals, m, source);
    }
    assert(short =~= whole);
}

/// The keys of the redirect map, each once, in the order in which the batch
/// first shows them redirected; `n` is the number of positions looked at.
pub open spec fn redirect_order_upto(hosts: Seq<Seq<char>>, finals: Seq<Seq<char>>, n: nat) -> Seq<
    Seq<char>,
>
    decreases n,
{
    if n == 0 {
        Seq::empty()
    } else {
        let before = redirect_order_upto(hosts, finals, (n - 1) as nat);
        if redirects_at(hosts, finals, n - 1, hosts[n - 1]) && !before.contains(hosts[n - 1]) {
            before.push(hosts[n - 1])
        } else {
            before
        }
    }
}

/// The keys of the redirect map, each once, in the order in which the batch
/// first shows them redirected.
pub open spec fn redirect_order(hosts: Seq<Seq<char>>, finals: Seq<Seq<char>>) -> Seq<Seq<char>> {
    redirect_order_upto(hosts, finals, hosts.len())
}

/// The order lists what was redirected at one of the first `n` positions,
/// and nothing twice.
pub proof fn lemma_redirect_order_upto(hosts: Seq<Seq<char>>, finals: Seq<Seq<char>>, n: nat)
    requires
        n <= hosts.len(),
    ensures
        redirect_order_upto(hosts, finals, n).no_duplicates(),
        forall|source: Seq<char>| #[trigger]
            redirect_order_upto(hosts, finals, n).contains(source) <==> exists|i: int|
                i < n && redirects_at(hosts, finals, i, source),
    decreases n,
{
    let order = redirect_order_upto(hosts, finals, n);
    if n > 0 {
        let before = redirect_order_upto(hosts, finals, (n - 1) as nat);
        let host = hosts[n - 1];
        lemma_redirect_order_upto(hosts, finals, (n - 1) as nat);
        assert forall|source: Seq<char>| #[trigger]
            order.contains(source) <==> exists|i: int|
                i < n && redirects_at(hosts, finals, i, source) by {
            if order.contains(source) {
                if before.contains(source) {
                    let i = choose|i: int| i < n - 1 && redirects_at(hosts, finals, i, source);
                    assert(i < n && redirects_at(hosts, finals, i, source));
                } else {
                    assert(order == before.push(host));
                    let j = choose|j: int| 0 <= j < order.len() && order[j] == source;
                    assert(j == before.len());
                    assert(redirects_at(hosts, finals, n - 1, source));
                }
            }
            if exists|i: int| i < n && redirects_at(hosts, finals, i, source) {
                let i = choose|i: int| i < n && redirects_at(hosts, finals, i, source);
                if i < n - 1 {
                    assert(before.contains(source));
                    let j = choose|j: int| 0 <= j < before.len() && before[j] == source;
                    assert(order[j] == source);
                } else if before.contains(source) {
                    let j = choose|j: int| 0 <= j < before.len() && before[j] == source;
                    assert(order[j] == source);
                } else {
                    assert(order[before.len() as int] == source);
                }
            }
        }
    }
}

/// The order lists the keys of the redirect map, each once.
pub proof fn lemma_redirect_order(hosts: Seq<Seq<char>>, finals: Seq<Seq<char>>)
    ensures
        redirect_order(hosts, finals).no_duplicates(),
        forall|source: Seq<char>| #[trigger]
            redirect_order(hosts, finals).contains(source) <==> redirect_map(
                hosts,
                finals,
            ).contains_key(source),
{
    lemma_redirect_order_upto(hosts, finals, hosts.len());
}

/// Positions that `finals` lacks add nothing to the order.
proof fn lemma_redirect_order_beyond(
    hosts: Seq<Seq<char>>,
    finals: Seq<Seq<char>>,
    n: nat,
    m: nat,
)
    requires
        n <= m <= hosts.len(),
        n == hosts.len() || n == finals.len(),
    ensures
        redirect_order_upto(hosts, finals, m) == redirect_order_upto(hosts, finals, n),
    decreases m,
{
    if m > n {
        lemma_redirect_order_beyond(hosts, finals, n, (m - 1) as nat);
    }
}

/// The redirect map of a batch: for each URL that was redirected, the URL
/// that its resolution reached. Lookups go by the source URL.
///
/// The entries stand in a hash map keyed by the serialization of the source.
/// Of the hash maps with text keys, vstd specifies `StringHashMap`, which
/// cannot be walked; so the keys are kept beside it, each once, in the order
/// in which they came into the map, and the entries are listed in that order.
pub struct RedirectMap {
    sources: Vec<Url>,
    table: StringHashMap<Url>,
}

impl View for RedirectMap {
    type V = Map<Seq<char>, Seq<char>>;

    closed spec fn view(&self) -> Map<Seq<char>, Seq<char>> {
        table_view(self.table@)
    }
}

spec fn table_view(table: Map<Seq<char>, Url>) -> Map<Seq<char>, Seq<char>> {
    Map::new(|source: Seq<char>| table.contains_key(source), |source: Seq<char>| table[source]@)
}

/// One `(source, final)` pair of serializations for each pair of URLs.
pub open spec fn pair_texts(pairs: Seq<(Url, Url)>) -> Seq<(Seq<char>, Seq<char>)> {
    pairs.map_values(|pair: (Url, Url)| (pair.0@, pair.1@))
}

impl RedirectMap {
    #[verifier::type_invariant]
    spec fn well_formed(self) -> bool {
        &&& texts(self.sources@).no_duplicates()
        &&& forall|source: Seq<char>|
            self.table@.contains_key(source) <==> texts(self.sources@).contains(source)
        &&& forall|source: Seq<char>| #[trigger]
            self.table@.contains_key(source) ==> self.table@[source]@ != source
    }

    /// The keys, each once, in the order in which they came into the map.
    pub closed spec fn order(&self) -> Seq<Seq<char>> {
        texts(self.sources@)
    }

    /// The entries as `(source, final)` pairs, in the order of the keys.
    pub open spec fn rows(&self) -> Seq<(Seq<char>, Seq<char>)> {
        Seq::new(self.order().len(), |i: int| (self.order()[i], self@[self.order()[i]]))
    }

    /// Reduces the resolutions of a batch to its redirect map: `finals[i]` is
    /// the URL that the request for `hosts[i]` reached.
    pub fn from_resolutions(hosts: &Vec<Url>, finals: &Vec<Url>) -> (r: RedirectMap)
        ensures
            r@ == redirect_map(texts(hosts@), texts(finals@)),
            r.order() == redirect_order(texts(hosts@), texts(finals@)),
            forall|source: Seq<char>| #[trigger]
                r@.contains_key(source) ==> texts(hosts@).contains(source),
            forall|source: Seq<char>| #[trigger]
                r@.contains_key(source) ==> r@[source] != source,
    {
        let ghost hs = texts(hosts@);
        let ghost fs = texts(finals@);
        let n: usize = if hosts.len() <= finals.len() {
            hosts.len()
        } else {
            finals.len()
        };
        let mut sources: Vec<Url> = Vec::new();
        let mut table: StringHashMap<Url> = StringHashMap::new();
        let mut i: usize = 0;
        proof {
            assert(table_view(table@) =~= redirect_map(hs.take(0), fs.take(0)));
        }
        while i < n
            invariant
                i <= n,
                n <= hosts.len(),
                n <= finals.len(),
                hs == texts(hosts@),
                fs == texts(finals@),
                texts(sources@) == redirect_order_upto(hs, fs, i as nat),
                texts(sources@).no_duplicates(),
                forall|source: Seq<char>|
                    table@.contains_key(source) <==> texts(sources@).contains(source),
                table_view(table@) == redirect_map(hs.take(i as int), fs.take(i as int)),
            decreases n - i,
        {
            let host = &hosts[i];
            let dest = &finals[i];
            proof {
                lemma_redirect_map_push(
                    hs.take(i as int),
                    fs.take(i as int),
                    hs[i as int],
                    fs[i as int],
                );
                assert(hs.take(i + 1) =~= hs.take(i as int).push(hs[i as int]));
                assert(fs.take(i + 1) =~= fs.take(i as int).push(fs[i as int]));
                lemma_redirect_order_upto(hs, fs, i as nat);
                lemma_redirect_order_upto(hs, fs, (i + 1) as nat);
            }
            if host != dest {
                let ghost old_sources = texts(sources@);
                let ghost old_table = table@;
                if !table.contains_key(host.as_str()) {
                    sources.push(host.clone());
                    proof {
                        assert(texts(sources@) =~= old_sources.push(host@));
                    }
                }
                table.insert(host.to_text(), dest.clone());
                proof {
                    assert(table_view(table@) =~= table_view(old_table).insert(host@, dest@));
                }
            }
            i += 1;
        }
        proof {
            lemma_redirect_map_zip(hs, fs, n as int);
            lemma_redirect_order_beyond(hs, fs, n as nat, hs.len());
            lemma_keys_are_hosts(hs, fs);
            lemma_no_entry_to_itself(hs, fs);
            assert forall|source: Seq<char>| #[trigger]
                table@.contains_key(source) implies table@[source]@ != source by {
                assert(table_view(table@).contains_key(source));
                assert(table_view(table@)[source] == table@[source]@);
            }
        }
        RedirectMap { sources, table }
    }

    /// The number of entries.
    pub fn len(&self) -> (r: usize)
        ensures
            self@.dom().finite(),
            r == self@.len(),
            r == self.order().len(),
    {
        proof {
            use_type_invariant(self);
            let keys = texts(self.sources@);
            keys.unique_seq_to_set();
            assert(self@.dom() =~= keys.to_set());
        }
        self.sources.len()
    }

    /// Whether no URL of the batch was redirected.
    pub fn is_empty(&self) -> (r: bool)
        ensures
            r == (self@ == Map::<Seq<char>, Seq<char>>::empty()),
    {
        proof {
            use_type_invariant(self);
            let keys = texts(self.sources@);
            if keys.len() == 0 {
                assert(self@ =~= Map::<Seq<char>, Seq<char>>::empty());
            } else {
                assert(keys.contains(keys[0]));
                assert(self@.contains_key(keys[0]));
            }
        }
        self.sources.len() == 0
    }

    /// Whether `source` was redirected.
    pub fn contains_key(&self, source: &Url) -> (r: bool)
        ensures
            r == self@.contains_key(source@),
    {
        self.table.contains_key(source.as_str())
    }

    /// Where `source` was redirected to, if it was: never to itself.
    pub fn get(&self, source: &Url) -> (r: Option<&Url>)
        ensures
            match r {
                Some(dest) => {
                    &&& self@.contains_key(source@)
                    &&& dest@ == self@[source@]
                    &&& dest@ != source@
                },
                None => !self@.contains_key(source@),
            },
    {
        proof {
            use_type_invariant(self);
        }
        self.table.get(source.as_str())
    }

    /// The entries as `(source, final)` pairs, in the order of the keys. Each
    /// key of the map stands in that order once, and no entry leads a URL to
    /// itself.
    pub fn entries(&self) -> (r: Vec<(Url, Url)>)
        ensures
            pair_texts(r@) == self.rows(),
            self.order().no_duplicates(),
            forall|source: Seq<char>|
                self@.contains_key(source) <==> #[trigger] self.order().contains(source),
            forall|source: Seq<char>| #[trigger]
                self@.contains_key(source) ==> self@[source] != source,
    {
        proof {
            use_type_invariant(self);
        }
        let mut pairs: Vec<(Url, Url)> = Vec::new();
        let mut i: usize = 0;
        while i < self.sources.len()
            invariant
                i <= self.sources.len(),
                forall|source: Seq<char>|
                    self.table@.contains_key(source) <==> texts(self.sources@).contains(source),
                pair_texts(pairs@) == self.rows().take(i as int),
            decreases self.sources.len() - i,
        {
            let source = &self.sources[i];
            proof {
                assert(texts(self.sources@)[i as int] == source@);
                assert(texts(self.sources@).contains(source@));
            }
            match self.table.get(source.as_str()) {
                Some(dest) => {
                    let ghost before = pairs@;
                    pairs.push((source.clone(), dest.clone()));
                    proof {
                        assert(pair_texts(pairs@) =~= pair_texts(before).push((source@, dest@)));
                        assert(self.rows().take(i + 1) =~= self.rows().take(i as int).push(
                            (source@, dest@),
                        ));
                    }
                },
                None => {},
            }
            i += 1;
        }
        proof {
            assert(self.rows().take(i as int) =~= self.rows());
        }
        pairs
    }
}

} // verus!
