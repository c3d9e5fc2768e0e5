//! Conversion of the sing-config outbounds into sing-box outbounds: the
//! providers that selectors and URL tests name are loaded, their outbounds
//! merged in after the input's own, and their tags appended to the lists of
//! the outbounds that named them. No two outbounds may share a tag.

use indexmap::IndexMap;
use vstd::prelude::*;

use crate::entries::{
    distinct_keys, find, keys, lemma_find, lemma_find_distinct, lemma_find_keys, lemma_find_prefix,
};
use crate::foreign::strings_view;
use crate::load::LoadProvider;
use crate::sing_box::outbound::{
    Outbound as SingBoxOutbound, OutboundKind as SingBoxOutboundKind, OutboundKindView,
    OutboundView,
};
use crate::sing_box::{self, outbound_tags};
use crate::sing_config::outbound::{
    Outbound as SingConfigOutbound, OutboundKind as SingConfigOutboundKind,
};

verus! {

/// Why the conversion failed.
#[derive(Debug)]
pub enum ConvertOutboundsError<E> {
    /// The loader could not load the provider `tag`.
    LoadProvider { tag: String, source: E },
    /// Two input outbounds share the tag `tag`.
    InputTagConflict { tag: String },
    /// The outbound `tag` of provider `from` has a tag that is taken already.
    ProviderTagConflict { tag: String, from: String },
}

/// Outbounds by tag, in the order they were added.
type OutboundMap = IndexMap<String, SingBoxOutbound>;

/// For each provider, in the order first named, the tags of the outbounds
/// that name it, in the order they name it.
type ProviderConsumers = IndexMap<String, Vec<String>>;

// ---------------------------------------------------------------------------
// The two maps of the conversion, as `indexmap` keeps them.

/// The entries of an outbound map, in order: each tag with its outbound.
pub uninterp spec fn outbound_entries(m: IndexMap<String, SingBoxOutbound>) -> Seq<(Seq<char>, OutboundView)>;

/// The entries of a provider-consumers map, in order: each provider tag
/// with the tags listed under it.
pub uninterp spec fn consumer_entries(m: IndexMap<String, Vec<String>>) -> Seq<(Seq<char>, Seq<Seq<char>>)>;

/// `IndexMap::with_capacity`: an empty map.
#[verifier::external_body]
fn outbound_map_with_capacity(n: usize) -> (m: OutboundMap)
    ensures
        outbound_entries(m) == Seq::<(Seq<char>, OutboundView)>::empty(),
{
    IndexMap::with_capacity(n)
}

/// `IndexMap::get_index_of`: the position of the entry with key `key`.
#[verifier::external_body]
fn outbound_map_get_index_of(m: &OutboundMap, key: &String) -> (r: Option<usize>)
    ensures
        r matches Some(i) ==> find(outbound_entries(*m), key@) == Some(i as int),
        r is None ==> find(outbound_entries(*m), key@) is None,
{
    m.get_index_of(key)
}

/// `IndexMap::insert`: a new key goes last; an existing key keeps its place
/// and takes the new value.
#[verifier::external_body]
fn outbound_map_insert(m: &mut OutboundMap, key: String, value: SingBoxOutbound)
    ensures
        distinct_keys(outbound_entries(*final(m))),
        outbound_entries(*final(m)) == (match find(outbound_entries(*old(m)), key@) {
            Some(i) => outbound_entries(*old(m)).update(i, (key@, value@)),
            None => outbound_entries(*old(m)).push((key@, value@)),
        }),
{
    m.insert(key, value);
}

/// `IndexMap::reserve`: room for more entries; the entries stay as they are.
#[verifier::external_body]
fn outbound_map_reserve(m: &mut OutboundMap, additional: usize)
    ensures
        outbound_entries(*final(m)) == outbound_entries(*old(m)),
{
    m.reserve(additional);
}

/// `IndexMut<usize>` of `IndexMap`: the value at position `i`, to change in
/// place; the key stays.
#[verifier::external_body]
fn outbound_map_index_mut(m: &mut OutboundMap, i: usize) -> (r: &mut SingBoxOutbound)
    requires
        i < outbound_entries(*old(m)).len(),
    ensures
        (*r)@ == outbound_entries(*old(m))[i as int].1,
        outbound_entries(*final(m)) == outbound_entries(*old(m)).update(
            i as int,
            (outbound_entries(*old(m))[i as int].0, (*final(r))@),
        ),
{
    &mut m[i]
}

/// `IndexMap::new`: an empty map.
#[verifier::external_body]
fn consumers_new() -> (m: ProviderConsumers)
    ensures
        consumer_entries(m) == Seq::<(Seq<char>, Seq<Seq<char>>)>::empty(),
{
    IndexMap::new()
}

/// `IndexMap::get_index_of`: the position of the entry with key `key`.
#[verifier::external_body]
fn consumers_get_index_of(m: &ProviderConsumers, key: &String) -> (r: Option<usize>)
    ensures
        r matches Some(i) ==> find(consumer_entries(*m), key@) == Some(i as int),
        r is None ==> find(consumer_entries(*m), key@) is None,
{
    m.get_index_of(key)
}

/// `IndexMap::insert`: a new key goes last; an existing key keeps its place
/// and takes the new value.
#[verifier::external_body]
fn consumers_insert(m: &mut ProviderConsumers, key: String, value: Vec<String>)
    ensures
        distinct_keys(consumer_entries(*final(m))),
        consumer_entries(*final(m)) == (match find(consumer_entries(*old(m)), key@) {
            Some(i) => consumer_entries(*old(m)).update(i, (key@, strings_view(value@))),
            None => consumer_entries(*old(m)).push((key@, strings_view(value@))),
        }),
{
    m.insert(key, value);
}

/// `IndexMut<usize>` of `IndexMap`: the value at position `i`, to change in
/// place; the key stays.
#[verifier::external_body]
fn consumers_index_mut(m: &mut ProviderConsumers, i: usize) -> (r: &mut Vec<String>)
    requires
        i < consumer_entries(*old(m)).len(),
    ensures
        strings_view((*r)@) == consumer_entries(*old(m))[i as int].1,
        consumer_entries(*final(m)) == consumer_entries(*old(m)).update(
            i as int,
            (consumer_entries(*old(m))[i as int].0, strings_view((*final(r))@)),
        ),
{
    &mut m[i]
}

/// `IndexMap::len`: the number of entries.
#[verifier::external_body]
fn consumers_len(m: &ProviderConsumers) -> (r: usize)
    ensures
        r == consumer_entries(*m).len(),
{
    m.len()
}

/// `IndexMap::get_index`: the entry at position `i`, where there is one.
#[verifier::external_body]
fn consumers_get_index(m: &ProviderConsumers, i: usize) -> (r: Option<(&String, &Vec<String>)>)
    ensures
        r is Some <==> i < consumer_entries(*m).len(),
        r matches Some(p) ==> p.0@ == consumer_entries(*m)[i as int].0 && strings_view(
            p.1@,
        ) == consumer_entries(*m)[i as int].1,
{
    m.get_index(i)
}

// ---------------------------------------------------------------------------
// What the conversion computes.

/// The tags of the input outbounds, in order.
pub open spec fn input_tags(input: Seq<SingConfigOutbound>) -> Seq<Seq<char>> {
    input.map_values(|o: SingConfigOutbound| o.tag@)
}

/// The position of the first tag that occurs earlier in the sequence too.
pub open spec fn first_repeat(tags: Seq<Seq<char>>) -> Option<int>
    decreases tags.len(),
{
    if tags.len() == 0 {
        None
    } else {
        match first_repeat(tags.drop_last()) {
            Some(j) => Some(j),
            None => if tags.drop_last().contains(tags.last()) {
                Some(tags.len() - 1)
            } else {
                None
            },
        }
    }
}

/// The input outbounds by tag, each as the sing-box outbound it becomes
/// before any provider is expanded.
pub open spec fn base_entries(input: Seq<SingConfigOutbound>) -> Seq<(Seq<char>, OutboundView)> {
    input.map_values(|o: SingConfigOutbound| (o.tag@, o.converted()))
}

/// `t` appended to the consumers of provider `p` (a new entry, last, where
/// `p` has none yet).
pub open spec fn add_consumer(
    e: Seq<(Seq<char>, Seq<Seq<char>>)>,
    p: Seq<char>,
    t: Seq<char>,
) -> Seq<(Seq<char>, Seq<Seq<char>>)> {
    match find(e, p) {
        Some(i) => e.update(i, (p, e[i].1.push(t))),
        None => e.push((p, seq![t])),
    }
}

/// `t` appended to the consumers of each provider of `ps`, in order.
pub open spec fn add_consumers(
    e: Seq<(Seq<char>, Seq<Seq<char>>)>,
    ps: Seq<Seq<char>>,
    t: Seq<char>,
) -> Seq<(Seq<char>, Seq<Seq<char>>)>
    decreases ps.len(),
{
    if ps.len() == 0 {
        e
    } else {
        add_consumer(add_consumers(e, ps.drop_last(), t), ps.last(), t)
    }
}

/// For each provider that the input names, in the order first named, the
/// tags of the outbounds that name it, once per naming.
pub open spec fn consumers_of(input: Seq<SingConfigOutbound>) -> Seq<(Seq<char>, Seq<Seq<char>>)>
    decreases input.len(),
{
    if input.len() == 0 {
        Seq::empty()
    } else {
        add_consumers(consumers_of(input.drop_last()), input.last().providers(), input.last().tag@)
    }
}


/// The outbounds of a provider merged in after the entries, in order, up to
/// the first whose tag is taken already; that tag, where there is one.
pub open spec fn merge_outbounds(e: Seq<(Seq<char>, OutboundView)>, os: Seq<OutboundView>) -> (
    Seq<(Seq<char>, OutboundView)>,
    Option<Seq<char>>,
)
    decreases os.len(),
{
    if os.len() == 0 {
        (e, None)
    } else {
        let prev = merge_outbounds(e, os.drop_last());
        if prev.1 is Some {
            prev
        } else if find(prev.0, os.last().tag) is Some {
            (prev.0, Some(os.last().tag))
        } else {
            (prev.0.push((os.last().tag, os.last())), None)
        }
    }
}

/// The outbound with `tags` appended to the outbounds it lists.
pub open spec fn consumed(o: OutboundView, tags: Seq<Seq<char>>) -> OutboundView {
    OutboundView { tag: o.tag, kind: o.kind.extended(tags) }
}

/// `tags` appended to the lists of the outbounds `cs`, once for each time
/// an outbound occurs in `cs`.
pub open spec fn consume_all(
    e: Seq<(Seq<char>, OutboundView)>,
    cs: Seq<Seq<char>>,
    tags: Seq<Seq<char>>,
) -> Seq<(Seq<char>, OutboundView)>
    decreases cs.len(),
{
    if cs.len() == 0 {
        e
    } else {
        let acc = consume_all(e, cs.drop_last(), tags);
        match find(acc, cs.last()) {
            Some(i) => acc.update(i, (acc[i].0, consumed(acc[i].1, tags))),
            None => acc,
        }
    }
}

/// The expansion of provider `p`, whose outbounds are `os` and whose
/// consumers are `cs`: its outbounds merged in, then their tags appended
/// to the lists of its consumers; or the tag that is taken already, with
/// `p`.
pub open spec fn expand_one(
    e: Seq<(Seq<char>, OutboundView)>,
    p: Seq<char>,
    cs: Seq<Seq<char>>,
    os: Seq<OutboundView>,
) -> Result<Seq<(Seq<char>, OutboundView)>, (Seq<char>, Seq<char>)> {
    let merged = merge_outbounds(e, os);
    match merged.1 {
        Some(t) => Err((t, p)),
        None => Ok(consume_all(merged.0, cs, outbound_tags(os))),
    }
}

/// The expansion of the first `configs.len()` providers of `cons`, in
/// order, the `k`th provider having the outbounds `configs[k]`.
pub open spec fn expand(
    e: Seq<(Seq<char>, OutboundView)>,
    cons: Seq<(Seq<char>, Seq<Seq<char>>)>,
    configs: Seq<Seq<OutboundView>>,
) -> Result<Seq<(Seq<char>, OutboundView)>, (Seq<char>, Seq<char>)>
    decreases configs.len(),
{
    if configs.len() == 0 {
        Ok(e)
    } else {
        match expand(e, cons, configs.drop_last()) {
            Err(x) => Err(x),
            Ok(acc) => expand_one(
                acc,
                cons[configs.len() - 1].0,
                cons[configs.len() - 1].1,
                configs.last(),
            ),
        }
    }
}

/// What the conversion returns, where the `k`th provider it loaded had the
/// outbounds `configs[k]`.
pub open spec fn conversion_outcome<E>(
    input: Seq<SingConfigOutbound>,
    configs: Seq<Seq<OutboundView>>,
    r: Result<IndexMap<String, SingBoxOutbound>, ConvertOutboundsError<E>>,
) -> bool {
    let base = base_entries(input);
    let cons = consumers_of(input);
    &&& configs.len() <= cons.len()
    &&& match r {
        Ok(m) => configs.len() == cons.len() && (expand(base, cons, configs) matches Ok(x)
            && x == outbound_entries(m)),
        Err(ConvertOutboundsError::LoadProvider { tag, .. }) => configs.len() < cons.len()
            && expand(base, cons, configs) is Ok && tag@ == cons[configs.len() as int].0,
        Err(ConvertOutboundsError::ProviderTagConflict { tag, from }) => configs.len() > 0
            && expand(base, cons, configs.drop_last()) is Ok && (expand(base, cons, configs) matches Err(x)
            && x == (tag@, from@)),
        Err(ConvertOutboundsError::InputTagConflict { .. }) => false,
    }
}

/// The loader, asked for provider `p`, answered with a configuration whose
/// outbounds are `os`.
pub open spec fn loader_gave<L: LoadProvider>(loader: &L, p: Seq<char>, os: Seq<OutboundView>) -> bool {
    exists|t: &str, c: &sing_box::Config|
        t@ == p && #[trigger] call_ensures(
            L::load_provider,
            (loader, t),
            Ok::<&sing_box::Config, L::Error>(c),
        ) && c.outbounds_view() == os
}

/// Each of the first `configs.len()` providers of `cons` is what the
/// loader answered when asked for it.
pub open spec fn loaded_from<L: LoadProvider>(
    loader: &L,
    cons: Seq<(Seq<char>, Seq<Seq<char>>)>,
    configs: Seq<Seq<OutboundView>>,
) -> bool {
    forall|k: int| 0 <= k < configs.len() ==> #[trigger] loader_gave(loader, cons[k].0, configs[k])
}

/// A load error is what the loader answered when asked for that provider.
pub open spec fn load_error_from<L: LoadProvider>(
    loader: &L,
    r: Result<IndexMap<String, SingBoxOutbound>, ConvertOutboundsError<L::Error>>,
) -> bool {
    r matches Err(ConvertOutboundsError::LoadProvider { tag, source }) ==> exists|t: &str|
        t@ == tag@ && #[trigger] call_ensures(
            L::load_provider,
            (loader, t),
            Err::<&sing_box::Config, L::Error>(source),
        )
}

/// The entry with key `c` is a selector or URL test.
pub open spec fn group_at(e: Seq<(Seq<char>, OutboundView)>, c: Seq<char>) -> bool {
    match find(e, c) {
        Some(i) => e[i].1.kind.is_group(),
        None => false,
    }
}

/// Every consumer listed is an entry that providers can be expanded into.
pub open spec fn all_ready(
    e: Seq<(Seq<char>, OutboundView)>,
    cons: Seq<(Seq<char>, Seq<Seq<char>>)>,
) -> bool {
    forall|k: int, x: int|
        0 <= k < cons.len() && 0 <= x < cons[k].1.len() ==> group_at(e, #[trigger] cons[k].1[x])
}

/// `c` is listed as a consumer of some provider.
pub open spec fn is_consumer(cons: Seq<(Seq<char>, Seq<Seq<char>>)>, c: Seq<char>) -> bool {
    exists|k: int, x: int| 0 <= k < cons.len() && 0 <= x < cons[k].1.len() && cons[k].1[x] == c
}

/// A repeated tag within a prefix is the first repeat of the whole sequence.
proof fn lemma_first_repeat_prefix(tags: Seq<Seq<char>>, n: int)
    requires
        0 <= n <= tags.len(),
        first_repeat(tags.take(n)) is Some,
    ensures
        first_repeat(tags) == first_repeat(tags.take(n)),
    decreases tags.len(),
{
    if n == tags.len() {
        assert(tags.take(n) =~= tags);
    } else {
        assert(tags.drop_last().take(n) =~= tags.take(n));
        lemma_first_repeat_prefix(tags.drop_last(), n);
    }
}

/// Each input outbound by tag, as it is before any provider is expanded,
/// and the providers that the input names with the outbounds that name
/// them; fails on the first tag that an earlier outbound has already.
fn convert_input<E>(input: Vec<SingConfigOutbound>) -> (r: Result<
    (OutboundMap, ProviderConsumers),
    ConvertOutboundsError<E>,
>)
    ensures
        match first_repeat(input_tags(input@)) {
            Some(j) => r matches Err(ConvertOutboundsError::InputTagConflict { tag }) && tag@
                == input_tags(input@)[j],
            None => r matches Ok((m, c)) && outbound_entries(m) == base_entries(input@)
                && consumer_entries(c) == consumers_of(input@) && distinct_keys(
                outbound_entries(m),
            ) && distinct_keys(consumer_entries(c)),
        },
{
    let ghost all = input@;
    let mut outbound_map = outbound_map_with_capacity(input.len());
    let mut provider_consumers = consumers_new();
    for outbound in it: input
        invariant
            all == it.seq(),
            outbound_entries(outbound_map) == base_entries(all.take(it.index() as int)),
            consumer_entries(provider_consumers) == consumers_of(all.take(it.index() as int)),
            distinct_keys(outbound_entries(outbound_map)),
            distinct_keys(consumer_entries(provider_consumers)),
            first_repeat(input_tags(all.take(it.index() as int))) is None,
    {
        let ghost i = it.index() as int;
        let ghost prefix = all.take(i);
        proof {
            assert(all.take(i + 1).drop_last() =~= prefix);
            assert(input_tags(all.take(i + 1)).drop_last() =~= input_tags(prefix));
            assert(base_entries(all.take(i + 1)) =~= base_entries(prefix).push(
                (all[i].tag@, all[i].converted()),
            ));
        }
        let SingConfigOutbound { tag, kind } = outbound;
        match outbound_map_get_index_of(&outbound_map, &tag) {
            Some(_) => {
                proof {
                    let e = base_entries(prefix);
                    lemma_find(e, tag@);
                    let j = find(e, tag@)->0;
                    assert(input_tags(prefix)[j] == tag@);
                    assert(input_tags(all.take(i + 1)).last() == tag@);
                    assert(input_tags(all).take(i + 1) =~= input_tags(all.take(i + 1)));
                    lemma_first_repeat_prefix(input_tags(all), i + 1);
                }
                return Err(ConvertOutboundsError::InputTagConflict { tag });
            },
            None => {
                proof {
                    let e = base_entries(prefix);
                    lemma_find(e, tag@);
                    if input_tags(prefix).contains(tag@) {
                        let j = choose|j: int|
                            0 <= j < input_tags(prefix).len() && input_tags(prefix)[j] == tag@;
                        assert(e[j].0 == tag@);
                    }
                    assert(input_tags(all.take(i + 1)).last() == tag@);
                }
            },
        }
        let ghost providers = all[i].providers();
        let (handled_kind, provider_tags) = match kind {
            SingConfigOutboundKind::Selector(selector) => {
                let (selector, providers) = selector.split();
                (SingBoxOutboundKind::Selector(selector), Some(providers))
            },
            SingConfigOutboundKind::UrlTest(url_test) => {
                let (url_test, providers) = url_test.split();
                (SingBoxOutboundKind::UrlTest(url_test), Some(providers))
            },
            SingConfigOutboundKind::Unknown(unknown) => (SingBoxOutboundKind::Unknown(unknown), None),
        };
        if let Some(provider_tags) = provider_tags {
            let ghost ps = strings_view(provider_tags@);
            assert(ps == providers);
            for provider_tag in pit: provider_tags
                invariant
                    ps == strings_view(pit.seq()),
                    consumer_entries(provider_consumers) == add_consumers(
                        consumers_of(prefix),
                        ps.take(pit.index() as int),
                        tag@,
                    ),
                    distinct_keys(consumer_entries(provider_consumers)),
            {
                let ghost k = pit.index() as int;
                proof {
                    assert(ps.take(k + 1).drop_last() =~= ps.take(k));
                }
                match consumers_get_index_of(&provider_consumers, &provider_tag) {
                    Some(n) => {
                        proof {
                            lemma_find(consumer_entries(provider_consumers), provider_tag@);
                        }
                        let list = consumers_index_mut(&mut provider_consumers, n);
                        let ghost before = list@;
                        list.push(tag.clone());
                        proof {
                            assert(strings_view(list@) =~= strings_view(before).push(tag@));
                        }
                    },
                    None => {
                        let list = vec![tag.clone()];
                        proof {
                            assert(strings_view(list@) =~= seq![tag@]);
                        }
                        consumers_insert(&mut provider_consumers, provider_tag, list);
                    },
                }
            }
            proof {
                assert(ps.take(ps.len() as int) =~= ps);
            }
        }
        let key = tag.clone();
        outbound_map_insert(&mut outbound_map, key, SingBoxOutbound::new(tag, handled_kind));
    }
    proof {
        assert(all.take(all.len() as int) =~= all);
    }
    Ok((outbound_map, provider_consumers))
}

/// Once the merge stops at a taken tag, the rest of the outbounds change
/// nothing.
proof fn lemma_merge_prefix(e: Seq<(Seq<char>, OutboundView)>, os: Seq<OutboundView>, n: int)
    requires
        0 <= n <= os.len(),
        merge_outbounds(e, os.take(n)).1 is Some,
    ensures
        merge_outbounds(e, os) == merge_outbounds(e, os.take(n)),
    decreases os.len(),
{
    if n == os.len() {
        assert(os.take(n) =~= os);
    } else {
        assert(os.drop_last().take(n) =~= os.take(n));
        lemma_merge_prefix(e, os.drop_last(), n);
    }
}

/// Merging keeps the entries that were there, in their places.
proof fn lemma_merge_extends(e: Seq<(Seq<char>, OutboundView)>, os: Seq<OutboundView>)
    ensures
        merge_outbounds(e, os).0.len() >= e.len(),
        forall|i: int| 0 <= i < e.len() ==> merge_outbounds(e, os).0[i] == e[i],
    decreases os.len(),
{
    if os.len() > 0 {
        lemma_merge_extends(e, os.drop_last());
    }
}

/// Appending tags to consumers changes no key and turns no selector or URL
/// test into another kind.
proof fn lemma_consume_all_keeps(
    e: Seq<(Seq<char>, OutboundView)>,
    cs: Seq<Seq<char>>,
    tags: Seq<Seq<char>>,
)
    ensures
        consume_all(e, cs, tags).len() == e.len(),
        keys(consume_all(e, cs, tags)) == keys(e),
        forall|i: int|
            0 <= i < e.len() ==> (#[trigger] consume_all(e, cs, tags)[i]).1.kind.is_group()
                == e[i].1.kind.is_group(),
    decreases cs.len(),
{
    if cs.len() > 0 {
        let acc = consume_all(e, cs.drop_last(), tags);
        lemma_consume_all_keeps(e, cs.drop_last(), tags);
        lemma_find(acc, cs.last());
        match find(acc, cs.last()) {
            Some(i) => {
                let next = acc.update(i, (acc[i].0, consumed(acc[i].1, tags)));
                assert(keys(next) =~= keys(acc));
                assert forall|j: int| 0 <= j < e.len() implies (#[trigger] next[j]).1.kind.is_group()
                    == e[j].1.kind.is_group() by {
                    assert(acc[j].1.kind.is_group() == e[j].1.kind.is_group());
                }
            },
            None => {},
        }
    }
}

/// Expanding a provider leaves every consumer an entry that providers can
/// be expanded into.
proof fn lemma_expand_one_ready(
    e: Seq<(Seq<char>, OutboundView)>,
    p: Seq<char>,
    cs: Seq<Seq<char>>,
    os: Seq<OutboundView>,
    cons: Seq<(Seq<char>, Seq<Seq<char>>)>,
)
    requires
        all_ready(e, cons),
        expand_one(e, p, cs, os) is Ok,
    ensures
        all_ready(expand_one(e, p, cs, os)->Ok_0, cons),
{
    let merged = merge_outbounds(e, os).0;
    let tags = outbound_tags(os);
    let result = consume_all(merged, cs, tags);
    lemma_merge_extends(e, os);
    lemma_consume_all_keeps(merged, cs, tags);
    assert forall|k: int, x: int| 0 <= k < cons.len() && 0 <= x < cons[k].1.len() implies group_at(
        result,
        #[trigger] cons[k].1[x],
    ) by {
        let c = cons[k].1[x];
        assert(group_at(e, c));
        lemma_find_prefix(e, merged, c);
        lemma_find_keys(result, merged, c);
        let i = find(e, c)->0;
        lemma_find(e, c);
        assert(merged[i] == e[i]);
        assert(result[i].1.kind.is_group() == merged[i].1.kind.is_group());
    }
}

/// A consumer listed after adding `t` was listed before, or is `t`.
proof fn lemma_add_consumer(e: Seq<(Seq<char>, Seq<Seq<char>>)>, p: Seq<char>, t: Seq<char>)
    ensures
        forall|c: Seq<char>| #[trigger]
            is_consumer(add_consumer(e, p, t), c) ==> is_consumer(e, c) || c == t,
{
    let a = add_consumer(e, p, t);
    lemma_find(e, p);
    assert forall|c: Seq<char>| #[trigger] is_consumer(a, c) implies is_consumer(e, c) || c == t by {
        let (k, x) = choose|k: int, x: int|
            0 <= k < a.len() && 0 <= x < a[k].1.len() && a[k].1[x] == c;
        match find(e, p) {
            Some(i) => {
                if k == i {
                    if x < e[i].1.len() {
                        assert(e[k].1[x] == c);
                    }
                } else {
                    assert(e[k].1[x] == c);
                }
            },
            None => {
                if k < e.len() {
                    assert(e[k].1[x] == c);
                }
            },
        }
    }
}

/// A consumer listed after adding `t` for the providers `ps` was listed
/// before, or is `t` and `ps` is not empty.
proof fn lemma_add_consumers(e: Seq<(Seq<char>, Seq<Seq<char>>)>, ps: Seq<Seq<char>>, t: Seq<char>)
    ensures
        forall|c: Seq<char>| #[trigger]
            is_consumer(add_consumers(e, ps, t), c) ==> is_consumer(e, c) || (c == t && ps.len()
                > 0),
    decreases ps.len(),
{
    if ps.len() > 0 {
        lemma_add_consumers(e, ps.drop_last(), t);
        lemma_add_consumer(add_consumers(e, ps.drop_last(), t), ps.last(), t);
    }
}

/// Every consumer is the tag of an input outbound that names providers.
proof fn lemma_consumers_of(s: Seq<SingConfigOutbound>)
    ensures
        forall|c: Seq<char>| #[trigger]
            is_consumer(consumers_of(s), c) ==> exists|j: int|
                0 <= j < s.len() && s[j].tag@ == c && s[j].providers().len() > 0,
    decreases s.len(),
{
    if s.len() > 0 {
        let d = s.drop_last();
        lemma_consumers_of(d);
        lemma_add_consumers(consumers_of(d), s.last().providers(), s.last().tag@);
        assert forall|c: Seq<char>| #[trigger] is_consumer(consumers_of(s), c) implies exists|j: int|
            0 <= j < s.len() && s[j].tag@ == c && s[j].providers().len() > 0 by {
            if is_consumer(consumers_of(d), c) {
                let j = choose|j: int|
                    0 <= j < d.len() && d[j].tag@ == c && d[j].providers().len() > 0;
                assert(s[j] == d[j]);
            } else {
                assert(s[s.len() - 1] == s.last());
            }
        }
    }
}

/// Before any provider is expanded, every consumer is a selector or URL
/// test of the input.
proof fn lemma_base_ready(s: Seq<SingConfigOutbound>)
    requires
        distinct_keys(base_entries(s)),
    ensures
        all_ready(base_entries(s), consumers_of(s)),
{
    let base = base_entries(s);
    let cons = consumers_of(s);
    lemma_consumers_of(s);
    assert forall|k: int, x: int| 0 <= k < cons.len() && 0 <= x < cons[k].1.len() implies group_at(
        base,
        #[trigger] cons[k].1[x],
    ) by {
        let c = cons[k].1[x];
        assert(is_consumer(cons, c));
        let j = choose|j: int| 0 <= j < s.len() && s[j].tag@ == c && s[j].providers().len() > 0;
        assert(base[j].0 == c);
        lemma_find_distinct(base, c, j);
    }
}

/// Merges the outbounds of a provider in after the entries of the map, in
/// order; fails with the first tag that is taken already, leaving the
/// outbounds merged before it.
fn merge_provider<'a>(map: &mut OutboundMap, config: &'a sing_box::Config) -> (r: Result<(), &'a str>)
    requires
        distinct_keys(outbound_entries(*old(map))),
    ensures
        distinct_keys(outbound_entries(*final(map))),
        outbound_entries(*final(map)) == merge_outbounds(
            outbound_entries(*old(map)),
            config.outbounds_view(),
        ).0,
        r matches Err(t) ==> merge_outbounds(outbound_entries(*old(map)), config.outbounds_view()).1
            == Some(t@),
        r is Ok ==> merge_outbounds(outbound_entries(*old(map)), config.outbounds_view()).1 is None,
{
    let ghost e0 = outbound_entries(*map);
    let ghost os = config.outbounds_view();
    outbound_map_reserve(map, config.outbounds.len());
    let n = config.outbounds.len();
    let mut j: usize = 0;
    while j < n
        invariant
            n == config.outbounds.len(),
            os == config.outbounds_view(),
            e0 == outbound_entries(*old(map)),
            j <= n,
            distinct_keys(outbound_entries(*map)),
            outbound_entries(*map) == merge_outbounds(e0, os.take(j as int)).0,
            merge_outbounds(e0, os.take(j as int)).1 is None,
        decreases n - j,
    {
        let outbound = &config.outbounds[j];
        proof {
            assert(os.take(j + 1).drop_last() =~= os.take(j as int));
            assert(os.take(j + 1).last() == outbound@);
        }
        match outbound_map_get_index_of(map, &outbound.tag) {
            Some(_) => {
                proof {
                    assert(merge_outbounds(e0, os.take(j + 1)) == (
                        merge_outbounds(e0, os.take(j as int)).0,
                        Some(outbound.tag@),
                    ));
                    lemma_merge_prefix(e0, os, j + 1);
                }
                return Err(outbound.tag.as_str());
            },
            None => {
                outbound_map_insert(map, outbound.tag.clone(), outbound.clone());
            },
        }
        j += 1;
    }
    proof {
        assert(os.take(n as int) =~= os);
    }
    Ok(())
}

/// Appends the tags of the configuration's outbounds to a list of tags.
fn append_tags(list: &mut Vec<String>, config: &sing_box::Config)
    ensures
        strings_view(final(list)@) == strings_view(old(list)@) + outbound_tags(
            config.outbounds_view(),
        ),
{
    let ghost start = strings_view(list@);
    let ghost tags = outbound_tags(config.outbounds_view());
    let n = config.outbounds.len();
    let mut j: usize = 0;
    while j < n
        invariant
            n == config.outbounds.len(),
            tags == outbound_tags(config.outbounds_view()),
            j <= n,
            strings_view(list@) == start + tags.take(j as int),
        decreases n - j,
    {
        let ghost before = list@;
        list.push(config.outbounds[j].tag.clone());
        proof {
            assert(tags.take(j + 1) =~= tags.take(j as int).push(tags[j as int]));
            assert(strings_view(list@) =~= strings_view(before).push(tags[j as int]));
        }
        j += 1;
    }
    proof {
        assert(tags.take(n as int) =~= tags);
    }
}

/// Appends the tags of the provider's outbounds to the outbounds that a
/// selector or URL test lists. Only a selector or URL test can take in a
/// provider.
pub fn consume_provider(outbound: &mut SingBoxOutbound, config: &sing_box::Config)
    requires
        old(outbound)@.kind.is_group(),
    ensures
        final(outbound)@ == consumed(old(outbound)@, outbound_tags(config.outbounds_view())),
{
    match &mut outbound.kind {
        SingBoxOutboundKind::Selector(selector) => append_tags(&mut selector.outbounds, config),
        SingBoxOutboundKind::UrlTest(url_test) => append_tags(&mut url_test.outbounds, config),
        SingBoxOutboundKind::Unknown(_) => {},
    }
}

/// Expands one provider whose configuration has been loaded: its outbounds
/// are merged in after the entries of the map, and their tags appended to
/// the lists of its consumers; fails when one of its outbounds has a tag
/// that is taken already.
pub fn expand_provider<E>(
    map: &mut IndexMap<String, SingBoxOutbound>,
    provider_tag: &String,
    consumers: &Vec<String>,
    config: &sing_box::Config,
) -> (r: Result<(), ConvertOutboundsError<E>>)
    requires
        distinct_keys(outbound_entries(*old(map))),
        forall|x: int|
            0 <= x < consumers.len() ==> group_at(
                outbound_entries(*old(map)),
                #[trigger] strings_view(consumers@)[x],
            ),
    ensures
        distinct_keys(outbound_entries(*final(map))),
        match expand_one(
            outbound_entries(*old(map)),
            provider_tag@,
            strings_view(consumers@),
            config.outbounds_view(),
        ) {
            Ok(e) => r is Ok && outbound_entries(*final(map)) == e,
            Err((t, p)) => (r matches Err(ConvertOutboundsError::ProviderTagConflict { tag, from })
                && tag@ == t && from@ == p) && outbound_entries(*final(map)) == merge_outbounds(
                outbound_entries(*old(map)),
                config.outbounds_view(),
            ).0,
        },
{
    let ghost e0 = outbound_entries(*map);
    let ghost os = config.outbounds_view();
    let ghost cs = strings_view(consumers@);
    let ghost tags = outbound_tags(os);
    match merge_provider(map, config) {
        Err(tag) => {
            return Err(
                ConvertOutboundsError::ProviderTagConflict {
                    tag: tag.to_owned(),
                    from: provider_tag.clone(),
                },
            );
        },
        Ok(()) => {},
    }
    let ghost merged = outbound_entries(*map);
    proof {
        lemma_merge_extends(e0, os);
        assert forall|y: int| 0 <= y < cs.len() implies group_at(merged, #[trigger] cs[y]) by {
            assert(group_at(e0, cs[y]));
            lemma_find_prefix(e0, merged, cs[y]);
            lemma_find(e0, cs[y]);
        }
    }
    let n = consumers.len();
    let mut x: usize = 0;
    while x < n
        invariant
            n == consumers.len(),
            cs == strings_view(consumers@),
            tags == outbound_tags(config.outbounds_view()),
            x <= n,
            outbound_entries(*map) == consume_all(merged, cs.take(x as int), tags),
            distinct_keys(outbound_entries(*map)),
            forall|y: int| 0 <= y < n ==> group_at(outbound_entries(*map), #[trigger] cs[y]),
        decreases n - x,
    {
        let consumer = &consumers[x];
        let ghost acc = outbound_entries(*map);
        proof {
            assert(cs.take(x + 1).drop_last() =~= cs.take(x as int));
            assert(cs.take(x + 1).last() == consumer@);
            assert(group_at(acc, cs[x as int]));
        }
        if let Some(i) = outbound_map_get_index_of(map, consumer) {
            proof {
                lemma_find(acc, consumer@);
            }
            let target = outbound_map_index_mut(map, i);
            consume_provider(target, config);
            proof {
                let next = outbound_entries(*map);
                assert(next == acc.update(i as int, (acc[i as int].0, consumed(acc[i as int].1, tags))));
                assert(keys(next) =~= keys(acc));
                assert forall|y: int| 0 <= y < n implies group_at(next, #[trigger] cs[y]) by {
                    assert(group_at(acc, cs[y]));
                    lemma_find_keys(next, acc, cs[y]);
                    lemma_find(acc, cs[y]);
                }
                assert forall|a: int, b: int| 0 <= a < next.len() && 0 <= b < next.len() && a != b implies next[a].0 != next[b].0 by {
                    assert(next[a].0 == keys(next)[a]);
                    assert(next[b].0 == keys(next)[b]);
                    assert(acc[a].0 == keys(acc)[a]);
                    assert(acc[b].0 == keys(acc)[b]);
                }
            }
        } else {
            proof {
                assert(false);
            }
        }
        x += 1;
    }
    proof {
        assert(cs.take(n as int) =~= cs);
    }
    Ok(())
}

/// Converts sing-config outbounds into sing-box outbounds by tag, loading
/// the providers they name with `loader`.
///
/// The input outbounds come first, in their order; then the outbounds of
/// each provider, providers in the order first named. The tags of each
/// provider's outbounds are appended to the lists of the selectors and URL
/// tests that name it. Fails on the first input tag that repeats, else on
/// the first provider that does not load or whose outbound has a tag that
/// is taken already. Whatever the loader returns, the outcome is the
/// expansion of the providers with the outbounds it returned when asked for
/// each of them, in order; a load error is the loader's own answer for that
/// provider.
pub fn convert_outbounds<L: LoadProvider>(input: Vec<SingConfigOutbound>, loader: &L) -> (r: Result<
    IndexMap<String, SingBoxOutbound>,
    ConvertOutboundsError<L::Error>,
>)
    ensures
        first_repeat(input_tags(input@)) matches Some(j) ==> (r matches Err(
            ConvertOutboundsError::InputTagConflict { tag },
        ) && tag@ == input_tags(input@)[j]),
        first_repeat(input_tags(input@)) is None ==> exists|configs: Seq<Seq<OutboundView>>|
            #[trigger] conversion_outcome(input@, configs, r) && loaded_from(
                loader,
                consumers_of(input@),
                configs,
            ),
        load_error_from(loader, r),
{
    let ghost inp = input@;
    let (mut outbound_map, provider_consumers) = match convert_input(input) {
        Ok(maps) => maps,
        Err(e) => return Err(e),
    };
    let ghost base = base_entries(inp);
    let ghost cons = consumers_of(inp);
    proof {
        lemma_base_ready(inp);
    }
    let n = consumers_len(&provider_consumers);
    let ghost mut loaded: Seq<Seq<OutboundView>> = Seq::empty();
    let mut k: usize = 0;
    while k < n
        invariant
            n == cons.len(),
            consumer_entries(provider_consumers) == cons,
            base == base_entries(inp),
            cons == consumers_of(inp),
            k <= n,
            inp == input@,
            first_repeat(input_tags(inp)) is None,
            loaded.len() == k,
            expand(base, cons, loaded) matches Ok(x) && x == outbound_entries(outbound_map),
            loaded_from(loader, cons, loaded),
            distinct_keys(outbound_entries(outbound_map)),
            all_ready(outbound_entries(outbound_map), cons),
        decreases n - k,
    {
        if let Some((provider_tag, consumers)) = consumers_get_index(&provider_consumers, k) {
            let asked: &str = provider_tag.as_str();
            let answer = loader.load_provider(asked);
            proof {
                assert(call_ensures(L::load_provider, (loader, asked), answer));
            }
            let config = match answer {
                Ok(config) => config,
                Err(source) => {
                    proof {
                        assert(call_ensures(
                            L::load_provider,
                            (loader, asked),
                            Err::<&sing_box::Config, L::Error>(source),
                        ));
                    }
                    let tag = provider_tag.clone();
                    assert(tag@ == asked@);
                    let r = Err(ConvertOutboundsError::LoadProvider { tag, source });
                    proof {
                        assert(conversion_outcome(inp, loaded, r));
                        let ghost src = r->Err_0->source;
                        assert(call_ensures(
                            L::load_provider,
                            (loader, asked),
                            Err::<&sing_box::Config, L::Error>(src),
                        ));
                        assert(load_error_from(loader, r));
                    }
                    return r;
                },
            };
            let ghost before = outbound_entries(outbound_map);
            let ghost os = config.outbounds_view();
            proof {
                assert forall|x: int| 0 <= x < consumers.len() implies group_at(
                    before,
                    #[trigger] strings_view(consumers@)[x],
                ) by {
                    assert(strings_view(consumers@)[x] == cons[k as int].1[x]);
                }
                assert(loaded.push(os).drop_last() =~= loaded);
                assert(loader_gave(loader, cons[k as int].0, os));
                assert forall|j: int| 0 <= j < loaded.push(os).len() implies #[trigger] loader_gave(
                    loader,
                    cons[j].0,
                    loaded.push(os)[j],
                ) by {
                    if j < loaded.len() {
                        assert(loaded.push(os)[j] == loaded[j]);
                    }
                }
            }
            match expand_provider(&mut outbound_map, provider_tag, consumers, config) {
                Err(e) => {
                    let r = Err(e);
                    proof {
                        assert(conversion_outcome(inp, loaded.push(os), r));
                        assert(loaded_from(loader, cons, loaded.push(os)));
                    }
                    return r;
                },
                Ok(()) => {},
            }
            proof {
                lemma_expand_one_ready(before, cons[k as int].0, cons[k as int].1, os, cons);
                loaded = loaded.push(os);
            }
        } else {
            proof {
                assert(false);
            }
        }
        k += 1;
    }
    let r = Ok(outbound_map);
    proof {
        assert(conversion_outcome(inp, loaded, r));
        assert(loaded_from(loader, cons, loaded));
    }
    r
}

// ---------------------------------------------------------------------------
// Laws of the conversion.

/// The tags of the providers' outbounds, provider after provider.
pub open spec fn all_tags(configs: Seq<Seq<OutboundView>>) -> Seq<Seq<char>>
    decreases configs.len(),
{
    if configs.len() == 0 {
        Seq::empty()
    } else {
        all_tags(configs.drop_last()) + outbound_tags(configs.last())
    }
}

/// The providers' outbounds, provider after provider.
pub open spec fn all_outbounds(configs: Seq<Seq<OutboundView>>) -> Seq<OutboundView>
    decreases configs.len(),
{
    if configs.len() == 0 {
        Seq::empty()
    } else {
        all_outbounds(configs.drop_last()) + configs.last()
    }
}

/// A sequence without a repeated tag has distinct tags.
proof fn lemma_no_repeat_distinct(tags: Seq<Seq<char>>)
    requires
        first_repeat(tags) is None,
    ensures
        forall|i: int, j: int| 0 <= i < tags.len() && 0 <= j < tags.len() && i != j ==> tags[i] != tags[j],
    decreases tags.len(),
{
    if tags.len() > 0 {
        let d = tags.drop_last();
        lemma_no_repeat_distinct(d);
        assert forall|i: int, j: int| 0 <= i < tags.len() && 0 <= j < tags.len() && i != j implies tags[i] != tags[j] by {
            if i < d.len() && j < d.len() {
                assert(d[i] == tags[i] && d[j] == tags[j]);
            } else if i == tags.len() - 1 {
                assert(d[j] == tags[j]);
                assert(!d.contains(tags.last()));
            } else {
                assert(d[i] == tags[i]);
                assert(!d.contains(tags.last()));
            }
        }
    }
}

/// A successful merge appends the provider's outbounds, in order; a merge
/// never makes a tag occur twice.
proof fn lemma_merge_appends(e: Seq<(Seq<char>, OutboundView)>, os: Seq<OutboundView>)
    ensures
        merge_outbounds(e, os).1 is None ==> merge_outbounds(e, os).0 == e + os.map_values(
            |o: OutboundView| (o.tag, o),
        ),
        distinct_keys(e) ==> distinct_keys(merge_outbounds(e, os).0),
    decreases os.len(),
{
    if os.len() > 0 {
        let d = os.drop_last();
        lemma_merge_appends(e, d);
        let prev = merge_outbounds(e, d);
        lemma_find(prev.0, os.last().tag);
        if prev.1 is None && find(prev.0, os.last().tag) is None {
            assert(os.map_values(|o: OutboundView| (o.tag, o)) =~= d.map_values(
                |o: OutboundView| (o.tag, o),
            ).push((os.last().tag, os.last())));
        }
    }
}

/// `new` is `old` with possibly more tags appended to what it lists.
pub open spec fn extends(new: OutboundView, old: OutboundView) -> bool {
    &&& new.tag == old.tag
    &&& match (new.kind, old.kind) {
        (
            OutboundKindView::Selector { outbounds: n, extra: xn },
            OutboundKindView::Selector { outbounds: o, extra: xo },
        ) => xn == xo && o.len() <= n.len() && n.take(o.len() as int) == o,
        (
            OutboundKindView::UrlTest { outbounds: n, extra: xn },
            OutboundKindView::UrlTest { outbounds: o, extra: xo },
        ) => xn == xo && o.len() <= n.len() && n.take(o.len() as int) == o,
        (OutboundKindView::Unknown(a), OutboundKindView::Unknown(b)) => a == b,
        _ => false,
    }
}

/// Appending tags extends an outbound; extending is reflexive and
/// transitive.
proof fn lemma_extends(a: OutboundView, b: OutboundView, c: OutboundView, t: Seq<Seq<char>>)
    ensures
        extends(consumed(a, t), a),
        extends(a, a),
        extends(a, b) && extends(b, c) ==> extends(a, c),
{
    match a.kind {
        OutboundKindView::Selector { outbounds, extra } => {
            assert((outbounds + t).take(outbounds.len() as int) =~= outbounds);
            assert(outbounds.take(outbounds.len() as int) =~= outbounds);
        },
        OutboundKindView::UrlTest { outbounds, extra } => {
            assert((outbounds + t).take(outbounds.len() as int) =~= outbounds);
            assert(outbounds.take(outbounds.len() as int) =~= outbounds);
        },
        OutboundKindView::Unknown(_) => {},
    }
    if extends(a, b) && extends(b, c) {
        match (a.kind, b.kind, c.kind) {
            (
                OutboundKindView::Selector { outbounds: x, .. },
                OutboundKindView::Selector { outbounds: y, .. },
                OutboundKindView::Selector { outbounds: z, .. },
            ) => {
                assert(x.take(z.len() as int) =~= y.take(z.len() as int));
            },
            (
                OutboundKindView::UrlTest { outbounds: x, .. },
                OutboundKindView::UrlTest { outbounds: y, .. },
                OutboundKindView::UrlTest { outbounds: z, .. },
            ) => {
                assert(x.take(z.len() as int) =~= y.take(z.len() as int));
            },
            _ => {},
        }
    }
}

/// Appending tags to consumers changes each entry only by appending tags
/// to what it lists.
proof fn lemma_consume_all_shape(
    e: Seq<(Seq<char>, OutboundView)>,
    cs: Seq<Seq<char>>,
    tags: Seq<Seq<char>>,
)
    ensures
        consume_all(e, cs, tags).len() == e.len(),
        forall|i: int|
            0 <= i < e.len() ==> (#[trigger] consume_all(e, cs, tags)[i]).0 == e[i].0 && extends(
                consume_all(e, cs, tags)[i].1,
                e[i].1,
            ),
    decreases cs.len(),
{
    if cs.len() == 0 {
        assert forall|i: int| 0 <= i < e.len() implies (#[trigger] consume_all(e, cs, tags)[i]).0
            == e[i].0 && extends(consume_all(e, cs, tags)[i].1, e[i].1) by {
            lemma_extends(e[i].1, e[i].1, e[i].1, tags);
        }
    } else {
        let acc = consume_all(e, cs.drop_last(), tags);
        lemma_consume_all_shape(e, cs.drop_last(), tags);
        lemma_find(acc, cs.last());
        let r = consume_all(e, cs, tags);
        assert forall|i: int| 0 <= i < e.len() implies (#[trigger] r[i]).0 == e[i].0 && extends(
            r[i].1,
            e[i].1,
        ) by {
            assert(acc[i].0 == e[i].0);
            lemma_extends(consumed(acc[i].1, tags), acc[i].1, e[i].1, tags);
            lemma_extends(acc[i].1, e[i].1, e[i].1, tags);
        }
    }
}

/// Appending tags to consumers that all sit before position `b` leaves the
/// entries from `b` on as they are.
proof fn lemma_consume_all_below(
    e: Seq<(Seq<char>, OutboundView)>,
    cs: Seq<Seq<char>>,
    tags: Seq<Seq<char>>,
    b: int,
)
    requires
        forall|x: int| 0 <= x < cs.len() ==> #[trigger] find(e, cs[x]) is Some && find(e, cs[x])->0 < b,
    ensures
        forall|i: int| b <= i < e.len() ==> #[trigger] consume_all(e, cs, tags)[i] == e[i],
    decreases cs.len(),
{
    if cs.len() > 0 {
        let d = cs.drop_last();
        assert forall|x: int| 0 <= x < d.len() implies #[trigger] find(e, d[x]) is Some && find(e, d[x])->0 < b by {
            assert(d[x] == cs[x]);
        }
        lemma_consume_all_below(e, d, tags, b);
        let acc = consume_all(e, d, tags);
        lemma_consume_all_keeps(e, d, tags);
        lemma_find_keys(acc, e, cs.last());
        assert(cs.last() == cs[cs.len() - 1]);
        assert(find(e, cs[cs.len() - 1]) is Some);
        lemma_find(acc, cs.last());
        let k = find(acc, cs.last())->0;
        assert(k < b);
        assert(acc.len() == e.len());
        let next = acc.update(k, (acc[k].0, consumed(acc[k].1, tags)));
        assert(consume_all(e, cs, tags) == next);
        assert forall|i: int| b <= i < e.len() implies #[trigger] consume_all(e, cs, tags)[i] == e[i] by {
            assert(acc[i] == e[i]);
            assert(next[i] == acc[i]);
        }
    }
}

/// The input's outbounds, then each provider's outbounds, by tag, as they
/// were written.
pub open spec fn written_entries(input: Seq<SingConfigOutbound>, configs: Seq<Seq<OutboundView>>) -> Seq<
    (Seq<char>, OutboundView),
> {
    base_entries(input) + all_outbounds(configs).map_values(|o: OutboundView| (o.tag, o))
}

/// Each entry is the one written at its place, but for tags appended to
/// what it lists.
pub open spec fn only_appended(e: Seq<(Seq<char>, OutboundView)>, written: Seq<(Seq<char>, OutboundView)>) -> bool {
    &&& e.len() == written.len()
    &&& forall|i: int| 0 <= i < e.len() ==> extends(#[trigger] e[i].1, written[i].1)
}

/// Law: where the conversion succeeds, its outbounds are the input's
/// outbounds in their order followed by each provider's outbounds in their
/// order, no tag occurs twice, and each outbound is as it was written but
/// for provider tags appended to what a selector or URL test lists (so every
/// other kind of outbound passes through unchanged); every key is its
/// outbound's tag, and the providers' outbounds stay exactly as loaded.
pub proof fn law_conversion_layout(input: Seq<SingConfigOutbound>, configs: Seq<Seq<OutboundView>>)
    requires
        first_repeat(input_tags(input)) is None,
        configs.len() <= consumers_of(input).len(),
        expand(base_entries(input), consumers_of(input), configs) is Ok,
    ensures
        keys(expand(base_entries(input), consumers_of(input), configs)->Ok_0) == input_tags(input)
            + all_tags(configs),
        distinct_keys(expand(base_entries(input), consumers_of(input), configs)->Ok_0),
        only_appended(
            expand(base_entries(input), consumers_of(input), configs)->Ok_0,
            written_entries(input, configs),
        ),
        forall|i: int|
            0 <= i < expand(base_entries(input), consumers_of(input), configs)->Ok_0.len() ==> (
            #[trigger] expand(base_entries(input), consumers_of(input), configs)->Ok_0[i]).0
                == expand(base_entries(input), consumers_of(input), configs)->Ok_0[i].1.tag,
        forall|i: int|
            base_entries(input).len() <= i < expand(
                base_entries(input),
                consumers_of(input),
                configs,
            )->Ok_0.len() ==> #[trigger] expand(base_entries(input), consumers_of(input), configs)->Ok_0[i]
                == written_entries(input, configs)[i],
    decreases configs.len(),
{
    let base = base_entries(input);
    let cons = consumers_of(input);
    let tags = input_tags(input);
    lemma_no_repeat_distinct(tags);
    assert(keys(base) =~= tags);
    if configs.len() == 0 {
        let written = written_entries(input, configs);
        assert(written =~= base);
        assert(tags + all_tags(configs) =~= tags);
        assert(expand(base, cons, configs)->Ok_0 == base);
        assert forall|a: int, b: int| 0 <= a < base.len() && 0 <= b < base.len() && a != b implies base[a].0
            != base[b].0 by {
            assert(base[a].0 == tags[a]);
            assert(base[b].0 == tags[b]);
        }
        assert forall|i: int| 0 <= i < base.len() implies extends(#[trigger] base[i].1, written[i].1) by {
            assert(written[i] == base[i]);
            lemma_extends(base[i].1, base[i].1, base[i].1, Seq::empty());
        }
        assert forall|i: int| 0 <= i < base.len() implies (#[trigger] base[i]).0 == base[i].1.tag by {
            assert(base[i] == (input[i].tag@, input[i].converted()));
        }
    } else {
        let d = configs.drop_last();
        let os = configs.last();
        law_conversion_layout(input, d);
        let acc = expand(base, cons, d)->Ok_0;
        let p = cons[configs.len() - 1];
        let merged = merge_outbounds(acc, os).0;
        lemma_merge_appends(acc, os);
        lemma_consume_all_shape(merged, p.1, outbound_tags(os));
        lemma_consume_all_keeps(merged, p.1, outbound_tags(os));
        let e = consume_all(merged, p.1, outbound_tags(os));
        assert(expand(base, cons, configs)->Ok_0 == e);
        let pairs = |o: OutboundView| (o.tag, o);
        let written_d = written_entries(input, d);
        let written = written_entries(input, configs);
        assert(all_outbounds(configs).map_values(pairs) =~= all_outbounds(d).map_values(pairs)
            + os.map_values(pairs));
        assert(written =~= written_d + os.map_values(pairs));
        assert(keys(merged) =~= keys(acc) + outbound_tags(os));
        assert(tags + all_tags(configs) =~= tags + all_tags(d) + outbound_tags(os));
        assert forall|a: int, b: int| 0 <= a < e.len() && 0 <= b < e.len() && a != b implies e[a].0
            != e[b].0 by {
            assert(e[a].0 == keys(e)[a]);
            assert(e[b].0 == keys(e)[b]);
            assert(merged[a].0 == keys(merged)[a]);
            assert(merged[b].0 == keys(merged)[b]);
        }
        assert(acc.len() == written_d.len());
        assert(merged.len() == acc.len() + os.len());
        assert(e.len() == written.len());
        assert forall|i: int| 0 <= i < e.len() implies extends(#[trigger] e[i].1, written[i].1) by {
            if i < acc.len() {
                assert(merged[i] == acc[i]);
                assert(written[i] == written_d[i]);
                lemma_extends(e[i].1, acc[i].1, written[i].1, Seq::empty());
            } else {
                assert(merged[i] == written[i]);
            }
        }
        assert(only_appended(e, written));
        // Every consumer is an input outbound, so it sits before the
        // providers' outbounds and they are left as loaded.
        let b = base.len() as int;
        lemma_consumers_of(input);
        assert forall|x: int| 0 <= x < p.1.len() implies #[trigger] find(merged, p.1[x]) is Some && find(
            merged,
            p.1[x],
        )->0 < b by {
            let c = p.1[x];
            assert(is_consumer(cons, c));
            let j = choose|j: int|
                0 <= j < input.len() && input[j].tag@ == c && input[j].providers().len() > 0;
            assert(acc[j].0 == keys(acc)[j]);
            assert(keys(acc)[j] == tags[j]);
            lemma_find(acc, c);
            lemma_find_prefix(acc, merged, c);
        }
        lemma_consume_all_below(merged, p.1, outbound_tags(os), b);
        assert forall|i: int| b <= i < e.len() implies #[trigger] e[i] == written[i] by {
            if i < acc.len() {
                assert(merged[i] == acc[i]);
                assert(written[i] == written_d[i]);
            } else {
                assert(merged[i] == written[i]);
            }
        }
        assert forall|i: int| 0 <= i < e.len() implies (#[trigger] e[i]).0 == e[i].1.tag by {
            assert(e[i].0 == merged[i].0);
            if i < acc.len() {
                assert(merged[i] == acc[i]);
            } else {
                assert(merged[i] == os.map_values(pairs)[i - acc.len()]);
            }
        }
    }
}

} // verus!
