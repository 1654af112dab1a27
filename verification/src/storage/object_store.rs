//! What a store on disk decides: what a timeline returns, which embeddings a
//! list holds, and when the indexes are trusted.
use vstd::prelude::*;

use crate::error;
use crate::error::{EngineError, Result};
use crate::ids;
use crate::ids::{AbstractNodeId, RawNodeId, SessionId, Uuid};
use crate::order;
use crate::order::{dedup, sort_by, Order};
use crate::storage::in_memory;
use crate::storage::layout::{INDEX_VERSION, STORE_FORMAT_VERSION};
use crate::storage::timeline;
use crate::storage::timeline::{NewestEntryOrder, RawIndexEntry, Window};
use crate::storage::vector;
use crate::table;
use crate::table::{Key, Table};
use crate::text;
use crate::text::decimal_text;
use crate::time;
use crate::time::Timestamp;

verus! {

/// The entries within a window.
pub open spec fn within(window: Window, entries: Seq<RawIndexEntry>) -> Seq<RawIndexEntry> {
    entries.filter(|entry: RawIndexEntry| window.covers(entry.timestamp))
}

/// The newest entries, newest first.
pub open spec fn newest(entries: Seq<RawIndexEntry>, limit: nat) -> Seq<RawIndexEntry> {
    vector::first(order::ordered(timeline::newest_order(), entries), limit)
}

/// Keeps the entries within a window.
fn keep_within(entries: &[RawIndexEntry], window: &Window) -> (result: Vec<RawIndexEntry>)
    ensures
        result@ == within(*window, entries@),
{
    let ghost kind = |entry: RawIndexEntry| window.covers(entry.timestamp);
    let mut result: Vec<RawIndexEntry> = Vec::new();
    let mut index: usize = 0;
    proof {
        reveal(Seq::filter);
        assert(entries@.take(0) =~= Seq::<RawIndexEntry>::empty());
    }
    while index < entries.len()
        invariant
            index <= entries.len(),
            kind == (|entry: RawIndexEntry| window.covers(entry.timestamp)),
            result@ == entries@.take(index as int).filter(kind),
        decreases entries.len() - index,
    {
        proof {
            reveal(Seq::filter);
            assert(entries@.take(index + 1).drop_last() =~= entries@.take(index as int));
        }
        if window.includes(&entries[index].timestamp) {
            result.push(entries[index]);
        }
        index = index + 1;
    }
    assert(entries@.take(entries@.len() as int) =~= entries@);
    result
}

/// Takes the newest entries, newest first.
fn take_newest(entries: Vec<RawIndexEntry>, limit: usize) -> (result: Vec<RawIndexEntry>)
    ensures
        result@ == newest(entries@, limit as nat),
{
    let ghost given = entries@;
    assert(order::views(entries@) =~= given);
    let mut result = sort_by(entries, &NewestEntryOrder);
    assert(order::order_of::<RawIndexEntry, NewestEntryOrder>(&NewestEntryOrder)
        =~= timeline::newest_order());
    assert(order::views(result@) =~= result@);
    if limit < result.len() {
        result.truncate(limit);
    }
    result
}

/// The timeline of a session within a window, newest first, from the index of
/// the session.
pub fn session_timeline(
    entries: &[RawIndexEntry],
    from: Option<Timestamp>,
    to: Option<Timestamp>,
    limit: usize,
) -> (result: Vec<RawIndexEntry>)
    ensures
        result@ == newest(within((Window { from, to }), entries@), limit as nat),
{
    let window = Window { from, to };
    take_newest(keep_within(entries, &window), limit)
}

/// The newest entries of an index, oldest first.
pub fn recent_entries(entries: Vec<RawIndexEntry>, limit: usize) -> (result: Vec<RawIndexEntry>)
    ensures
        result@ == in_memory::last_of(entries@, limit as nat),
{
    let mut entries = entries;
    if limit < entries.len() {
        let count: usize = entries.len() - limit;
        entries.split_off(count)
    } else {
        entries
    }
}

/// The oldest entries of an index, oldest first.
pub fn oldest_entries(entries: Vec<RawIndexEntry>, limit: usize) -> (result: Vec<RawIndexEntry>)
    ensures
        result@ == vector::first(entries@, limit as nat),
{
    let mut entries = entries;
    if limit < entries.len() {
        entries.truncate(limit);
    }
    entries
}

/// Gathers the newest entries from the timelines of single days, which are
/// handed in one after the other, the newest day first.
#[derive(Debug)]
pub struct TimelineMerge {
    window: Window,
    limit: usize,
    collected: Vec<RawIndexEntry>,
}

impl TimelineMerge {
    /// The instants that are asked for.
    pub closed spec fn window(&self) -> Window {
        self.window
    }

    /// How many entries are asked for.
    pub closed spec fn limit(&self) -> nat {
        self.limit as nat
    }

    /// What was gathered so far.
    pub closed spec fn collected(&self) -> Seq<RawIndexEntry> {
        self.collected@
    }

    /// Begins with nothing.
    pub fn new(from: Option<Timestamp>, to: Option<Timestamp>, limit: usize) -> (merge: Self)
        ensures
            merge.window() == (Window { from, to }),
            merge.limit() == limit,
            merge.collected() == Seq::<RawIndexEntry>::empty(),
    {
        TimelineMerge { window: Window { from, to }, limit, collected: Vec::new() }
    }

    /// Takes in the timeline of the next day and tells whether earlier days can
    /// add nothing.
    pub fn add_shard(&mut self, shard: &[RawIndexEntry]) -> (done: bool)
        ensures
            final(self).window() == old(self).window(),
            final(self).limit() == old(self).limit(),
            final(self).collected() == old(self).collected() + within(
                old(self).window(),
                shard@,
            ),
            done == (final(self).collected().len() >= final(self).limit()),
    {
        let mut kept = keep_within(shard, &self.window);
        self.collected.append(&mut kept);
        self.collected.len() >= self.limit
    }

    /// The newest entries that were gathered, newest first.
    pub fn finish(self) -> (entries: Vec<RawIndexEntry>)
        ensures
            entries@ == newest(self.collected(), self.limit()),
    {
        take_newest(self.collected, self.limit)
    }
}

/// What is gathered from the timelines of days, the newest first, up to the day
/// with which there are enough entries.
pub open spec fn gathered(
    shards: Seq<Seq<RawIndexEntry>>,
    window: Window,
    limit: nat,
    collected: Seq<RawIndexEntry>,
) -> Seq<RawIndexEntry>
    decreases shards.len(),
{
    if shards.len() == 0 {
        collected
    } else {
        let more = collected + within(window, shards[0]);
        if more.len() >= limit {
            more
        } else {
            gathered(shards.drop_first(), window, limit, more)
        }
    }
}

/// What all the timelines hold within a window.
pub open spec fn everything(shards: Seq<Seq<RawIndexEntry>>, window: Window) -> Seq<RawIndexEntry>
    decreases shards.len(),
{
    if shards.len() == 0 {
        Seq::empty()
    } else {
        within(window, shards[0]) + everything(shards.drop_first(), window)
    }
}

/// Whether the days come newest first: every entry of an earlier timeline is
/// newer than every entry of a later one.
pub open spec fn days_go_back(shards: Seq<Seq<RawIndexEntry>>) -> bool {
    forall|i: int, j: int, a: int, b: int|
        #![trigger shards[i][a], shards[j][b]]
        0 <= i < j < shards.len() && 0 <= a < shards[i].len() && 0 <= b < shards[j].len()
            ==> shards[j][b].timestamp.before(shards[i][a].timestamp)
}

/// Entries of different days stand in the order of their days.
pub proof fn earlier_days_hold_earlier_entries(left: RawIndexEntry, right: RawIndexEntry)
    requires
        time::day_number(left.timestamp.secs) < time::day_number(right.timestamp.secs),
    ensures
        left.timestamp.before(right.timestamp),
{
}

proof fn kept_was_there(window: Window, entries: Seq<RawIndexEntry>, k: int) -> (m: int)
    requires
        0 <= k < within(window, entries).len(),
    ensures
        0 <= m < entries.len(),
        entries[m] == within(window, entries)[k],
    decreases entries.len(),
{
    reveal(Seq::filter);
    let rest = entries.drop_last();
    if k < within(window, rest).len() {
        kept_was_there(window, rest, k)
    } else {
        entries.len() - 1
    }
}

/// Every entry of the later timelines was there.
proof fn everything_was_there(shards: Seq<Seq<RawIndexEntry>>, window: Window, k: int) -> (place: (
    int,
    int,
))
    requires
        0 <= k < everything(shards, window).len(),
    ensures
        0 <= place.0 < shards.len(),
        0 <= place.1 < shards[place.0].len(),
        shards[place.0][place.1] == everything(shards, window)[k],
    decreases shards.len(),
{
    let head = within(window, shards[0]);
    if k < head.len() {
        let m = kept_was_there(window, shards[0], k);
        (0, m)
    } else {
        let rest = shards.drop_first();
        let inner = everything_was_there(rest, window, k - head.len());
        assert(shards[inner.0 + 1] == rest[inner.0]);
        (inner.0 + 1, inner.1)
    }
}

/// The first values of a sequence with more behind it.
proof fn first_of_front<T>(front: Seq<T>, back: Seq<T>, limit: nat)
    requires
        front.len() >= limit,
    ensures
        vector::first(front + back, limit) == vector::first(front, limit),
{
    assert(vector::first(front + back, limit) =~= vector::first(front, limit));
}

proof fn stopping_loses_nothing_from(
    shards: Seq<Seq<RawIndexEntry>>,
    window: Window,
    limit: nat,
    collected: Seq<RawIndexEntry>,
)
    requires
        days_go_back(shards),
        forall|i: int, j: int, b: int|
            #![trigger collected[i], shards[j][b]]
            0 <= i < collected.len() && 0 <= j < shards.len() && 0 <= b < shards[j].len()
                ==> shards[j][b].timestamp.before(collected[i].timestamp),
    ensures
        newest(gathered(shards, window, limit, collected), limit) == newest(
            collected + everything(shards, window),
            limit,
        ),
    decreases shards.len(),
{
    let before = timeline::newest_order();
    if shards.len() == 0 {
        assert(collected + everything(shards, window) =~= collected);
    } else {
        let head = within(window, shards[0]);
        let rest = shards.drop_first();
        let more = collected + head;
        let later = everything(rest, window);
        assert(collected + everything(shards, window) =~= more + later);
        assert forall|i: int, j: int, b: int|
            #![trigger more[i], rest[j][b]]
            0 <= i < more.len() && 0 <= j < rest.len() && 0 <= b < rest[j].len() implies rest[j][b].timestamp.before(
            more[i].timestamp,
        ) by {
            assert(rest[j][b] == shards[j + 1][b]);
            if i < collected.len() {
                assert(more[i] == collected[i]);
            } else {
                let m = kept_was_there(window, shards[0], i - collected.len());
                assert(more[i] == shards[0][m]);
            }
        }
        assert(days_go_back(rest)) by {
            assert forall|i: int, j: int, a: int, b: int|
                #![trigger rest[i][a], rest[j][b]]
                0 <= i < j < rest.len() && 0 <= a < rest[i].len() && 0 <= b
                    < rest[j].len() implies rest[j][b].timestamp.before(rest[i][a].timestamp) by {
                assert(rest[i][a] == shards[i + 1][a]);
                assert(rest[j][b] == shards[j + 1][b]);
            }
        }
        if more.len() >= limit {
            assert forall|i: int, j: int|
                0 <= i < more.len() && 0 <= j < later.len() implies before(
                #[trigger] more[i],
                #[trigger] later[j],
            ) by {
                let place = everything_was_there(rest, window, j);
                assert(later[j] == rest[place.0][place.1]);
                assert(later[j].timestamp.before(more[i].timestamp));
            }
            timeline::entry_orders_are_total();
            order::ordered_in_parts(before, more, later);
            order::ordered_keeps_values(before, more);
            first_of_front(
                order::ordered(before, more),
                order::ordered(before, later),
                limit,
            );
        } else {
            stopping_loses_nothing_from(rest, window, limit, more);
        }
    }
}

/// Stopping at the day with which there are enough entries loses nothing: the
/// newest entries are those among all.
pub proof fn stopping_early_loses_nothing(
    shards: Seq<Seq<RawIndexEntry>>,
    window: Window,
    limit: nat,
)
    requires
        days_go_back(shards),
    ensures
        newest(gathered(shards, window, limit, Seq::empty()), limit) == newest(
            everything(shards, window),
            limit,
        ),
{
    let none = Seq::<RawIndexEntry>::empty();
    stopping_loses_nothing_from(shards, window, limit, none);
    assert(none + everything(shards, window) =~= everything(shards, window));
}

/// An identifier that names files.
pub trait FileId: Key + Copy {
    /// The identifier of a number.
    spec fn of_bits(bits: u128) -> Self::V;

    /// Reads an identifier.
    fn read(text: &str) -> (id: Option<Self>)
        ensures
            match ids::parsed_uuid(text@) {
                Ok(bits) => id is Some && id->0@ == Self::of_bits(bits),
                Err(_) => id is None,
            },
            forall|bits: u128|
                text@ == #[trigger] ids::hyphenated(bits) ==> id is Some && id->0@
                    == Self::of_bits(bits),
    ;
}

impl FileId for RawNodeId {
    open spec fn of_bits(bits: u128) -> RawNodeId {
        RawNodeId(Uuid { bits })
    }

    fn read(text: &str) -> (id: Option<Self>) {
        match RawNodeId::parse(text) {
            Ok(id) => Some(id),
            Err(_) => None,
        }
    }
}

impl FileId for AbstractNodeId {
    open spec fn of_bits(bits: u128) -> AbstractNodeId {
        AbstractNodeId(Uuid { bits })
    }

    fn read(text: &str) -> (id: Option<Self>) {
        match AbstractNodeId::parse(text) {
            Ok(id) => Some(id),
            Err(_) => None,
        }
    }
}

/// Whether a file is named by an identifier that an index lists.
pub open spec fn is_covered<I: FileId>(name: Seq<char>, indexed: Seq<I::V>) -> bool {
    ids::parsed_uuid(name) matches Ok(bits) && indexed.contains(I::of_bits(bits))
}

/// Whether every file is named by an identifier that an index lists.
pub open spec fn all_covered<I: FileId>(names: Seq<String>, indexed: Seq<I::V>) -> bool {
    forall|i: int| 0 <= i < names.len() ==> is_covered::<I>((#[trigger] names[i])@, indexed)
}

/// Whether a name is the text of an identifier that an index lists.
pub open spec fn is_named<I: FileId>(name: Seq<char>, indexed: Seq<I::V>) -> bool {
    exists|bits: u128|
        name == #[trigger] ids::hyphenated(bits) && indexed.contains(I::of_bits(bits))
}

/// Whether every name is the text of an identifier that an index lists.
pub open spec fn all_named<I: FileId>(names: Seq<String>, indexed: Seq<I::V>) -> bool {
    forall|i: int| 0 <= i < names.len() ==> is_named::<I>((#[trigger] names[i])@, indexed)
}

/// Whether an index lists every object of a directory, given the names of its
/// files without their ending. A name that is no identifier counts as missing;
/// files that are named by the texts of identifiers are found in the index.
pub fn bodies_are_covered<I: FileId>(names: &[String], indexed: &[I]) -> (result: bool)
    ensures
        result == all_covered::<I>(names@, order::views(indexed@)),
        all_named::<I>(names@, order::views(indexed@)) ==> result,
{
    let ghost known = order::views(indexed@);
    let mut index: usize = 0;
    while index < names.len()
        invariant
            index <= names.len(),
            known == order::views(indexed@),
            forall|i: int| 0 <= i < index ==> is_covered::<I>((#[trigger] names@[i])@, known),
        decreases names.len() - index,
    {
        let listed = match I::read(names[index].as_str()) {
            Some(id) => contains_key(indexed, &id),
            None => false,
        };
        if !listed {
            assert(!is_covered::<I>(names@[index as int]@, known));
            proof {
                if is_named::<I>(names@[index as int]@, known) {
                    let bits = choose|bits: u128|
                        names@[index as int]@ == #[trigger] ids::hyphenated(bits)
                            && known.contains(I::of_bits(bits));
                    assert(false);
                }
            }
            return false;
        }
        index = index + 1;
    }
    true
}

/// Whether a key is among others.
fn contains_key<K: Key>(keys: &[K], key: &K) -> (result: bool)
    ensures
        result == order::views(keys@).contains(key@),
{
    let ghost known = order::views(keys@);
    let mut index: usize = 0;
    while index < keys.len()
        invariant
            index <= keys.len(),
            known == order::views(keys@),
            forall|i: int| 0 <= i < index ==> known[i] != key@,
        decreases keys.len() - index,
    {
        if keys[index].same_key(key) {
            assert(known[index as int] == key@);
            return true;
        }
        assert(known[index as int] == keys@[index as int]@);
        index = index + 1;
    }
    false
}

/// Puts identifiers in order and drops repetitions, as a list of embeddings
/// holds them.
pub fn manifest_ids<I: Key, O: Order<I>>(ids: Vec<I>, order: &O) -> (result: Vec<I>)
    ensures
        order::views(result@) == order::distinct(order::order_of(order), order::views(ids@)),
{
    dedup(sort_by(ids, order))
}

/// The identifiers with one more, unless they hold it.
pub open spec fn including<V>(ids: Seq<V>, id: V) -> Seq<V> {
    if ids.contains(id) {
        ids
    } else {
        ids.push(id)
    }
}

/// Puts an identifier into a list of embeddings.
pub fn upsert_manifest_id<I: Key, O: Order<I>>(ids: Vec<I>, id: I, order: &O) -> (result: Vec<I>)
    ensures
        order::views(result@) == order::distinct(
            order::order_of(order),
            including(order::views(ids@), id@),
        ),
{
    let mut ids = ids;
    let ghost before = order::views(ids@);
    if !contains_key(ids.as_slice(), &id) {
        ids.push(id);
        assert(order::views(ids@) =~= before.push(id@));
    }
    manifest_ids(ids, order)
}

/// A list that grew by one identifier is the list that a rebuild gives.
pub proof fn manifests_grow_as_rebuilt<V>(before: spec_fn(V, V) -> bool, ids: Seq<V>, id: V)
    requires
        order::is_weak_order(before, |value: V| true),
        forall|a: V, b: V| !#[trigger] before(a, b) && !before(b, a) ==> a == b,
    ensures
        order::distinct(before, including(order::distinct(before, ids), id)) == order::distinct(
            before,
            ids.push(id),
        ),
        order::is_strictly_ordered(before, order::distinct(before, ids)),
        forall|value: V| #[trigger]
            order::distinct(before, ids).contains(value) <==> ids.contains(value),
{
    let held = order::distinct(before, ids);
    let left = including(held, id);
    let right = ids.push(id);
    order::distinct_is_strict(before, ids);
    order::distinct_is_strict(before, left);
    order::distinct_is_strict(before, right);
    assert forall|value: V| #[trigger] order::distinct(before, left).contains(value)
        <==> order::distinct(before, right).contains(value) by {
        assert(left.contains(value) <==> held.contains(value) || value == id) by {
            if held.contains(value) {
                let k = choose|k: int| 0 <= k < held.len() && held[k] == value;
                assert(left[k] == value);
            }
            if value == id && !held.contains(id) {
                assert(left[held.len() as int] == id);
            }
            if left.contains(value) && !held.contains(value) {
                let k = choose|k: int| 0 <= k < left.len() && left[k] == value;
                if k < held.len() {
                    assert(held[k] == value);
                }
            }
        }
        assert(right.contains(value) <==> ids.contains(value) || value == id) by {
            if ids.contains(value) {
                let k = choose|k: int| 0 <= k < ids.len() && ids[k] == value;
                assert(right[k] == value);
            }
            assert(right[ids.len() as int] == id);
            if right.contains(value) && !ids.contains(value) {
                let k = choose|k: int| 0 <= k < right.len() && right[k] == value;
                if k < ids.len() {
                    assert(ids[k] == value);
                }
            }
        }
    }
    order::strict_order_is_unique(
        before,
        order::distinct(before, left),
        order::distinct(before, right),
    );
}

/// The session whose embeddings a list holds, if they belong to one.
#[derive(Debug, Clone, Copy, PartialEq, Eq, Structural)]
pub struct Shard(pub Option<SessionId>);

impl View for Shard {
    type V = Shard;

    open spec fn view(&self) -> Shard {
        *self
    }
}

impl Key for Shard {
    fn same_key(&self, other: &Shard) -> (result: bool) {
        *self == *other
    }
}

/// Which embedding belongs to which session.
#[derive(Debug, Clone, Copy)]
pub struct EmbeddingOwner<I> {
    pub id: I,
    pub session_id: Option<SessionId>,
}

/// The identifiers of the embeddings of a session, in the order in which they
/// were read.
pub open spec fn owned<I: View>(owners: Seq<EmbeddingOwner<I>>, shard: Shard) -> Seq<I::V>
    decreases owners.len(),
{
    if owners.len() == 0 {
        Seq::empty()
    } else {
        let rest = owned(owners.drop_last(), shard);
        if owners.last().session_id == shard.0 {
            rest.push(owners.last().id@)
        } else {
            rest
        }
    }
}

/// What the list of a session holds after a rebuild: nothing is written for a
/// session without embeddings.
pub open spec fn rebuilt_manifest<I: View>(
    before: spec_fn(I::V, I::V) -> bool,
    owners: Seq<EmbeddingOwner<I>>,
    shard: Shard,
) -> Option<Seq<I::V>> {
    if owned(owners, shard).len() == 0 {
        None
    } else {
        Some(order::distinct(before, owned(owners, shard)))
    }
}

/// A list of embeddings.
#[derive(Debug)]
pub struct Manifest<I> {
    pub ids: Vec<I>,
}

impl<I: View> View for Manifest<I> {
    type V = Seq<I::V>;

    open spec fn view(&self) -> Seq<I::V> {
        order::views(self.ids@)
    }
}

/// Rebuilds the lists of embeddings, one for each session.
pub fn rebuild_manifests<I: Key + Copy, O: Order<I>>(owners: &[EmbeddingOwner<I>], order: &O) -> (result:
    Table<Shard, Manifest<I>>)
    requires
        order::is_weak_order(order::order_of::<I, O>(order), |value: I::V| true),
        forall|a: I::V, b: I::V|
            !#[trigger] order::order_of::<I, O>(order)(a, b) && !order::order_of::<I, O>(order)(
                b,
                a,
            ) ==> a == b,
    ensures
        table::is_table(result@),
        forall|shard: Shard| #[trigger]
            table::lookup(result@, shard) == rebuilt_manifest(
                order::order_of::<I, O>(order),
                owners@,
                shard,
            ),
{
    let ghost before = order::order_of::<I, O>(order);
    let mut result: Table<Shard, Manifest<I>> = Table::new();
    let mut index: usize = 0;
    assert(owners@.take(0) =~= Seq::<EmbeddingOwner<I>>::empty());
    while index < owners.len()
        invariant
            index <= owners.len(),
            before == order::order_of::<I, O>(order),
            order::is_weak_order(before, |value: I::V| true),
            forall|a: I::V, b: I::V| !#[trigger] before(a, b) && !before(b, a) ==> a == b,
            table::is_table(result@),
            forall|shard: Shard| #[trigger]
                table::lookup(result@, shard) == rebuilt_manifest(
                    before,
                    owners@.take(index as int),
                    shard,
                ),
        decreases owners.len() - index,
    {
        let owner = owners[index];
        let shard = Shard(owner.session_id);
        let ghost seen = owners@.take(index as int);
        let ghost lists = result@;
        proof {
            assert(owners@.take(index + 1).drop_last() =~= seen);
            assert(owners@.take(index + 1).last() == owner);
            assert(table::lookup(lists, shard) == rebuilt_manifest(before, seen, shard));
        }
        let ids = match result.take(&shard) {
            Some(manifest) => manifest.ids,
            None => Vec::new(),
        };
        proof {
            if owned(seen, shard).len() == 0 {
                assert(owned(seen, shard) =~= Seq::<I::V>::empty());
                assert(order::ordered(before, Seq::<I::V>::empty()) =~= Seq::<I::V>::empty());
                assert(order::views(ids@) =~= Seq::<I::V>::empty());
            }
            assert(order::views(ids@) == order::distinct(before, owned(seen, shard)));
            manifests_grow_as_rebuilt(before, owned(seen, shard), owner.id@);
        }
        let manifest = Manifest { ids: upsert_manifest_id(ids, owner.id, order) };
        proof {
            table::removed_is_gone(lists, shard);
            table::stored_is_found(result@, shard, manifest@);
        }
        let ghost rest = result@;
        result.insert(shard, manifest);
        proof {
            let grown = owners@.take(index + 1);
            assert forall|other: Shard| #[trigger] table::lookup(result@, other)
                == rebuilt_manifest(before, grown, other) by {
                if other == shard {
                    assert(owned(grown, other) == owned(seen, shard).push(owner.id@));
                } else {
                    assert(table::lookup(result@, other) == table::lookup(rest, other));
                    assert(table::lookup(rest, other) == table::lookup(lists, other));
                    assert(owned(grown, other) == owned(seen, other)) by {
                        assert(owner.session_id == shard.0);
                        if owner.session_id == other.0 {
                            assert(other == shard);
                        }
                    }
                }
            }
        }
        index = index + 1;
    }
    assert(owners@.take(owners@.len() as int) =~= owners@);
    result
}

/// Whether the indexes can be used as they are: they are of this layout, can be
/// read, and list every node and every embedding.
pub fn trusts_indexes(
    version: Option<u32>,
    readable: bool,
    nodes_listed: bool,
    embeddings_listed: bool,
) -> (result: bool)
    ensures
        result == (version == Some(INDEX_VERSION) && readable && nodes_listed
            && embeddings_listed),
{
    let current = match version {
        Some(version) => version == INDEX_VERSION,
        None => false,
    };
    current && readable && nodes_listed && embeddings_listed
}

/// The record that a store keeps of itself.
#[derive(Debug, Clone, Copy, PartialEq, Eq, Structural)]
pub struct StoreMetadata {
    pub format_version: u32,
    pub created_at: Timestamp,
    pub updated_at: Timestamp,
    pub last_index_rebuild_at: Option<Timestamp>,
}

impl StoreMetadata {
    /// The record of a new store.
    pub fn new(now: Timestamp) -> (metadata: Self)
        ensures
            metadata == (StoreMetadata {
                format_version: STORE_FORMAT_VERSION,
                created_at: now,
                updated_at: now,
                last_index_rebuild_at: None,
            }),
    {
        StoreMetadata {
            format_version: STORE_FORMAT_VERSION,
            created_at: now,
            updated_at: now,
            last_index_rebuild_at: None,
        }
    }

    /// Accepts the record of a store that was found at a path, unless the store
    /// has another layout.
    pub fn accepted(self, path: &str) -> (result: Result<StoreMetadata>)
        ensures
            self.format_version == STORE_FORMAT_VERSION ==> result is Ok && result->Ok_0 == self,
            self.format_version != STORE_FORMAT_VERSION ==> result is Err && error::is_storage(
                result->Err_0,
                "unsupported object store format version "@ + text::decimal(
                    self.format_version as nat,
                ) + " in "@ + path@,
            ),
    {
        if self.format_version != STORE_FORMAT_VERSION {
            return Err(
                EngineError::Storage(
                    "unsupported object store format version ".to_string().concat(
                        decimal_text(self.format_version as u64).as_str(),
                    ).concat(" in ").concat(path),
                ),
            );
        }
        Ok(self)
    }

    /// The record after a write.
    pub fn touched(self, now: Timestamp) -> (metadata: Self)
        ensures
            metadata == (StoreMetadata { updated_at: now, ..self }),
    {
        StoreMetadata { updated_at: now, ..self }
    }

    /// The record after the indexes were rebuilt.
    pub fn rebuilt(self, now: Timestamp) -> (metadata: Self)
        ensures
            metadata == (StoreMetadata {
                updated_at: now,
                last_index_rebuild_at: Some(now),
                ..self
            }),
    {
        StoreMetadata { updated_at: now, last_index_rebuild_at: Some(now), ..self }
    }
}

/// A timeline read from indexes keeps the newest: as many entries within the
/// window as the limit allows, newest first, and none that is left out is later
/// than one that is kept. A merge of days goes through all of their entries.
pub proof fn index_timelines_keep_the_newest(
    entries: Seq<RawIndexEntry>,
    window: Window,
    limit: nat,
    shards: Seq<Seq<RawIndexEntry>>,
)
    ensures
        order::are_first_of(
            |left: RawIndexEntry, right: RawIndexEntry|
                right.timestamp.before(left.timestamp),
            newest(within(window, entries), limit),
            entries.filter(
                |entry: RawIndexEntry|
                    (window.from matches Some(from) ==> !entry.timestamp.before(from)) && (
                    window.to matches Some(to) ==> !to.before(entry.timestamp)),
            ),
            limit as int,
        ),
        everything(shards, window) == within(window, shards.flatten()),
{
    let given = |entry: RawIndexEntry| window.covers(entry.timestamp);
    let meant = |entry: RawIndexEntry|
        (window.from matches Some(from) ==> !entry.timestamp.before(from)) && (
        window.to matches Some(to) ==> !to.before(entry.timestamp));
    order::filter_alike(given, meant, entries);
    let inside = entries.filter(meant);
    let kept = newest(inside, limit);
    let any = |entry: RawIndexEntry| true;
    timeline::entry_orders_are_total();
    assert(order::all_are(any, inside));
    order::ordered_keeps_values(timeline::newest_order(), inside);
    order::sorting_brings_the_first(timeline::newest_order(), any, inside, limit as int);
    let sorted = order::ordered(timeline::newest_order(), inside);
    if limit >= inside.len() {
        assert(sorted.take(inside.len() as int) =~= sorted);
    }
    let later = |left: RawIndexEntry, right: RawIndexEntry| right.timestamp.before(left.timestamp);
    assert(order::are_first_of(timeline::newest_order(), kept, inside, limit as int));
    let left = choose|left: Seq<RawIndexEntry>|
        {
            &&& #[trigger] (kept + left).to_multiset() == inside.to_multiset()
            &&& forall|i: int, j: int|
                0 <= i < kept.len() && 0 <= j < left.len() ==> !timeline::newest_order()(
                    #[trigger] left[j],
                    #[trigger] kept[i],
                )
        };
    assert((kept + left).to_multiset() == inside.to_multiset());
    assert forall|i: int, j: int| 0 <= i < kept.len() && 0 <= j < left.len() implies !later(
        #[trigger] left[j],
        #[trigger] kept[i],
    ) by {
        assert(!timeline::newest_order()(left[j], kept[i]));
    }
    assert forall|i: int, j: int| 0 <= i < j < kept.len() implies !later(
        #[trigger] kept[j],
        #[trigger] kept[i],
    ) by {
        assert(!timeline::newest_order()(kept[j], kept[i]));
    }
    everything_is_filtered(shards, window);
}

proof fn everything_is_filtered(shards: Seq<Seq<RawIndexEntry>>, window: Window)
    ensures
        everything(shards, window) == within(window, shards.flatten()),
    decreases shards.len(),
{
    let kind = |entry: RawIndexEntry| window.covers(entry.timestamp);
    if shards.len() > 0 {
        everything_is_filtered(shards.drop_first(), window);
        filter_of_parts(shards[0], shards.drop_first().flatten(), kind);
        assert(shards.flatten() == shards[0] + shards.drop_first().flatten());
    } else {
        reveal(Seq::filter);
        assert(shards.flatten() =~= Seq::<RawIndexEntry>::empty());
    }
}

proof fn filter_of_parts(
    left: Seq<RawIndexEntry>,
    right: Seq<RawIndexEntry>,
    kind: spec_fn(RawIndexEntry) -> bool,
)
    ensures
        (left + right).filter(kind) == left.filter(kind) + right.filter(kind),
    decreases right.len(),
{
    reveal(Seq::filter);
    if right.len() > 0 {
        filter_of_parts(left, right.drop_last(), kind);
        assert((left + right).drop_last() =~= left + right.drop_last());
        assert((left + right).filter(kind) =~= left.filter(kind) + right.filter(kind));
    } else {
        assert(left + right =~= left);
        assert(left.filter(kind) + right.filter(kind) =~= left.filter(kind));
    }
}

/// A rebuilt list holds the embeddings of its session, and no others, and there
/// is a list only for a session that has some.
pub proof fn rebuilt_lists_hold_their_sessions<I: View>(
    before: spec_fn(I::V, I::V) -> bool,
    owners: Seq<EmbeddingOwner<I>>,
    shard: Shard,
)
    requires
        order::is_weak_order(before, |value: I::V| true),
        forall|a: I::V, b: I::V| !#[trigger] before(a, b) && !before(b, a) ==> a == b,
    ensures
        ({
            let own = owners.filter(|owner: EmbeddingOwner<I>| owner.session_id == shard.0);
            match rebuilt_manifest(before, owners, shard) {
                None => own.len() == 0,
                Some(list) => {
                    &&& own.len() > 0
                    &&& order::is_strictly_ordered(before, list)
                    &&& forall|value: I::V| #[trigger]
                        list.contains(value) <==> own.map_values(
                            |owner: EmbeddingOwner<I>| owner.id@,
                        ).contains(value)
                },
            }
        }),
{
    owned_are_filtered(owners, shard);
    order::distinct_is_strict(before, owned(owners, shard));
}

proof fn owned_are_filtered<I: View>(owners: Seq<EmbeddingOwner<I>>, shard: Shard)
    ensures
        owned(owners, shard) == owners.filter(
            |owner: EmbeddingOwner<I>| owner.session_id == shard.0,
        ).map_values(|owner: EmbeddingOwner<I>| owner.id@),
    decreases owners.len(),
{
    reveal(Seq::filter);
    if owners.len() > 0 {
        owned_are_filtered(owners.drop_last(), shard);
    }
    assert(owned(owners, shard) =~= owners.filter(
        |owner: EmbeddingOwner<I>| owner.session_id == shard.0,
    ).map_values(|owner: EmbeddingOwner<I>| owner.id@));
}

} // verus!
