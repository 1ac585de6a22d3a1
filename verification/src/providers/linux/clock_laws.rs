//! Which files the clocks of Intel devices are read from.
use crate::model::{GpuVendor, MetricKey, MetricQuality};
use crate::ordered_laws::law_ordering_loses_nothing;
use crate::providers::linux::inventory::{
    all_card_clocks, best_sources, card_clocks, clock_source, gt_clocks, i915_clocks,
    present_paths, sorted_paths, sources_for, sources_with, tile_clocks, without_repeats,
    CardFacts, DeviceFacts, SourceKey, SourcePlace, TileFacts,
};
use crate::providers::linux::listing::{numbered_children, PathKey};
use crate::providers::linux::metric::SourceModel;
use crate::providers::linux::parse::is_numbered;
use crate::text::starts_with;
use vstd::prelude::*;

verus! {

proof fn lemma_present(paths: Seq<Seq<char>>, present: Set<Seq<char>>, path: Seq<char>)
    ensures
        present_paths(paths, present).contains(path) <==> paths.contains(path)
            && present.contains(path),
    decreases paths.len(),
{
    if paths.len() > 0 {
        let rest = paths.drop_last();
        lemma_present(rest, present, path);
        lemma_last(paths, path);
        let kept = present_paths(paths, present);
        if present.contains(paths.last()) {
            lemma_last(kept, path);
            assert(kept.drop_last() == present_paths(rest, present));
        }
    }
}

proof fn lemma_last(list: Seq<Seq<char>>, item: Seq<char>)
    requires
        list.len() > 0,
    ensures
        list.contains(item) <==> list.drop_last().contains(item) || list.last() == item,
{
    let rest = list.drop_last();
    if list.contains(item) {
        let k = choose|k: int| 0 <= k < list.len() && list[k] == item;
        if k < rest.len() {
            assert(rest[k] == item);
        }
    }
    if rest.contains(item) {
        let k = choose|k: int| 0 <= k < rest.len() && rest[k] == item;
        assert(list[k] == item);
    }
    if list.last() == item {
        assert(list[list.len() - 1] == item);
    }
}

proof fn lemma_once(paths: Seq<Seq<char>>, path: Seq<char>)
    ensures
        without_repeats(paths).contains(path) <==> paths.contains(path),
    decreases paths.len(),
{
    if paths.len() > 0 {
        let rest = paths.drop_last();
        lemma_once(rest, path);
        lemma_last(paths, path);
        let before = without_repeats(rest);
        let after = without_repeats(paths);
        if before.len() > 0 && before.last() == paths.last() {
            assert(before[before.len() - 1] == paths.last());
        } else {
            lemma_last(after, path);
            assert(after.drop_last() == before);
        }
    }
}

proof fn lemma_joined(first: Seq<Seq<char>>, second: Seq<Seq<char>>, item: Seq<char>)
    ensures
        (first + second).contains(item) <==> first.contains(item) || second.contains(item),
{
    let whole = first + second;
    if first.contains(item) {
        let k = choose|k: int| 0 <= k < first.len() && first[k] == item;
        assert(whole[k] == item);
    }
    if second.contains(item) {
        let k = choose|k: int| 0 <= k < second.len() && second[k] == item;
        assert(whole[first.len() + k] == item);
    }
    if whole.contains(item) {
        let k = choose|k: int| 0 <= k < whole.len() && whole[k] == item;
        if k < first.len() {
            assert(first[k] == item);
        } else {
            assert(second[k - first.len()] == item);
        }
    }
}

/// The path is a file of the clocks of the directories with the given numbers: one of the
/// directories, a slash, and the name.
pub open spec fn is_below(directories: Seq<Seq<char>>, name: Seq<char>, path: Seq<char>) -> bool {
    exists|k: int| 0 <= k < directories.len() && path == #[trigger] directories[k] + "/"@ + name
}

proof fn lemma_gt_clocks(gts: Seq<Seq<char>>, attribute: Seq<char>, path: Seq<char>)
    ensures
        gt_clocks(gts, attribute).contains(path) <==> is_below(gts, attribute, path),
{
    let all = gt_clocks(gts, attribute);
    if all.contains(path) {
        let k = choose|k: int| 0 <= k < all.len() && all[k] == path;
        assert(path == gts[k] + "/"@ + attribute);
    }
    if is_below(gts, attribute, path) {
        let k = choose|k: int| 0 <= k < gts.len() && path == #[trigger] gts[k] + "/"@ + attribute;
        assert(all[k] == path);
    }
}

/// The path is a file of the clocks of a card: the one of the card itself, or one of its tiles.
pub open spec fn is_card_clock(device: Seq<char>, card: CardFacts, path: Seq<char>) -> bool {
    &&& starts_with(card.card@, "card"@)
    &&& path == device + "/"@ + "drm"@ + "/"@ + card.card@ + "/"@ + "gt_cur_freq_mhz"@ || is_below(
        numbered_children(card.gts@, "gt"@),
        "rps_cur_freq_mhz"@,
        path,
    )
}

proof fn lemma_card_clocks(device: Seq<char>, cards: Seq<CardFacts>, path: Seq<char>)
    ensures
        all_card_clocks(device, cards).contains(path) <==> exists|c: int|
            0 <= c < cards.len() && is_card_clock(device, #[trigger] cards[c], path),
    decreases cards.len(),
{
    if cards.len() > 0 {
        let n = cards.len();
        let rest = cards.drop_last();
        lemma_card_clocks(device, rest, path);
        assert(cards[n - 1] == cards.last());
        let last = cards.last();
        let own = device + "/"@ + "drm"@ + "/"@ + last.card@ + "/"@ + "gt_cur_freq_mhz"@;
        let gts = gt_clocks(numbered_children(last.gts@, "gt"@), "rps_cur_freq_mhz"@);
        lemma_joined(seq![own], gts, path);
        lemma_gt_clocks(numbered_children(last.gts@, "gt"@), "rps_cur_freq_mhz"@, path);
        assert(seq![own].contains(path) <==> path == own) by {
            assert(seq![own][0] == own);
        }
        lemma_joined(all_card_clocks(device, rest), card_clocks(device, last), path);
        if exists|c: int| 0 <= c < rest.len() && is_card_clock(device, #[trigger] rest[c], path) {
            let c = choose|c: int|
                0 <= c < rest.len() && is_card_clock(device, #[trigger] rest[c], path);
            assert(is_card_clock(device, cards[c], path));
        }
        if exists|c: int| 0 <= c < n && is_card_clock(device, #[trigger] cards[c], path) {
            let c = choose|c: int| 0 <= c < n && is_card_clock(device, #[trigger] cards[c], path);
            if c < n - 1 {
                assert(is_card_clock(device, rest[c], path));
            }
        }
    }
}

/// The path is a file of the clocks of a tile.
pub open spec fn is_tile_clock(tile: TileFacts, path: Seq<char>) -> bool {
    &&& is_numbered(tile.tile.name@, "tile"@)
    &&& tile.tile.directory is Some
    &&& is_below(numbered_children(tile.gts@, "gt"@), "freq0/act_freq"@, path)
}

proof fn lemma_tile_clocks(tiles: Seq<TileFacts>, path: Seq<char>)
    ensures
        tile_clocks(tiles).contains(path) <==> exists|t: int|
            0 <= t < tiles.len() && is_tile_clock(#[trigger] tiles[t], path),
    decreases tiles.len(),
{
    if tiles.len() > 0 {
        let n = tiles.len();
        let rest = tiles.drop_last();
        lemma_tile_clocks(rest, path);
        assert(tiles[n - 1] == tiles.last());
        let gts = numbered_children(tiles.last().gts@, "gt"@);
        lemma_gt_clocks(gts, "freq0/act_freq"@, path);
        lemma_joined(tile_clocks(rest), gt_clocks(gts, "freq0/act_freq"@), path);
        if exists|t: int| 0 <= t < rest.len() && is_tile_clock(#[trigger] rest[t], path) {
            let t = choose|t: int| 0 <= t < rest.len() && is_tile_clock(#[trigger] rest[t], path);
            assert(is_tile_clock(tiles[t], path));
        }
        if exists|t: int| 0 <= t < n && is_tile_clock(#[trigger] tiles[t], path) {
            let t = choose|t: int| 0 <= t < n && is_tile_clock(#[trigger] tiles[t], path);
            if t < n - 1 {
                assert(is_tile_clock(rest[t], path));
            }
        }
    }
}

/// The source is the highest of the clocks of the graphics units in the given files.
pub open spec fn reads_clock_from(source: SourceModel, path: Seq<char>) -> bool {
    &&& source.key == MetricKey::ClockGraphicsMhz
    &&& source.quality == MetricQuality::Direct
    &&& source.reader is MaximumMhz
    &&& source.reader->MaximumMhz_0.contains(path)
}

proof fn lemma_source(paths: Seq<Seq<char>>, definition: Seq<char>, path: Seq<char>)
    requires
        paths.contains(path),
    ensures
        clock_source(paths, definition).len() == 1,
        reads_clock_from(clock_source(paths, definition)[0], path),
{
    let k = choose|k: int| 0 <= k < paths.len() && paths[k] == path;
}

/// With the driver i915 the clock of the graphics unit is read from each file that is there of
/// these: `gt_cur_freq_mhz` of the device, that of each card, and `rps_cur_freq_mhz` of each tile
/// of a card.
pub proof fn law_i915_clocks_are_read_from_their_files(
    facts: DeviceFacts,
    vendor: GpuVendor,
    path: Seq<char>,
)
    requires
        facts.clocks_present@.contains(path),
        path == facts.device_path@ + "/"@ + "gt_cur_freq_mhz"@ || exists|c: int|
            0 <= c < facts.cards@.len() && is_card_clock(
                facts.device_path@,
                #[trigger] facts.cards@[c],
                path,
            ),
    ensures
        exists|i: int|
            0 <= i < sources_with(facts, vendor, Some("i915"@)).len() && reads_clock_from(
                #[trigger] sources_with(facts, vendor, Some("i915"@))[i],
                path,
            ),
{
    let candidates = i915_clocks(facts);
    let own = facts.device_path@ + "/"@ + "gt_cur_freq_mhz"@;
    lemma_card_clocks(facts.device_path@, facts.cards@, path);
    lemma_joined(seq![own], all_card_clocks(facts.device_path@, facts.cards@), path);
    assert(seq![own][0] == own);
    lemma_present(candidates, facts.clocks_present@, path);
    let present = present_paths(candidates, facts.clocks_present@);
    law_ordering_loses_nothing::<PathKey, Seq<char>>(present, present, path);
    lemma_once(sorted_paths(present), path);
    let paths = without_repeats(sorted_paths(present));
    let definition = "maximum current Intel i915 GT frequency in MHz"@;
    lemma_source(paths, definition, path);
    reveal_strlit("i915");
    reveal_strlit("xe");
    assert("i915"@.len() == 4 && "xe"@.len() == 2);
    let all = sources_with(facts, vendor, Some("i915"@));
    let clocks = clock_source(paths, definition);
    let source = clocks[0];
    assert(clocks + Seq::<SourceModel>::empty() =~= clocks);
    assert(all[all.len() - 1] == source);
    assert(reads_clock_from(all[all.len() - 1], path));
}

/// With the driver xe the clock of the graphics unit is read from each `freq0/act_freq` that is
/// there of the units of a tile.
pub proof fn law_xe_clocks_are_read_from_their_files(
    facts: DeviceFacts,
    vendor: GpuVendor,
    path: Seq<char>,
    t: int,
)
    requires
        facts.clocks_present@.contains(path),
        0 <= t < facts.tiles@.len(),
        is_tile_clock(facts.tiles@[t], path),
    ensures
        exists|i: int|
            0 <= i < sources_with(facts, vendor, Some("xe"@)).len() && reads_clock_from(
                #[trigger] sources_with(facts, vendor, Some("xe"@))[i],
                path,
            ),
{
    let candidates = tile_clocks(facts.tiles@);
    lemma_tile_clocks(facts.tiles@, path);
    lemma_present(candidates, facts.clocks_present@, path);
    let present = present_paths(candidates, facts.clocks_present@);
    law_ordering_loses_nothing::<PathKey, Seq<char>>(present, present, path);
    let paths = sorted_paths(present);
    let definition = "maximum current Intel Xe GT frequency across tiles in MHz"@;
    lemma_source(paths, definition, path);
    let all = sources_with(facts, vendor, Some("xe"@));
    let source = clock_source(paths, definition)[0];
    assert(all.last() == source);
    assert(reads_clock_from(all[all.len() - 1], path));
}

proof fn lemma_sources_for(sources: Seq<SourceModel>, key: MetricKey, source: SourceModel)
    ensures
        sources_for(sources, key).contains(source) <==> sources.contains(source) && source.key
            == key,
    decreases sources.len(),
{
    if sources.len() > 0 {
        let n = sources.len();
        let rest = sources.drop_last();
        lemma_sources_for(rest, key, source);
        let before = sources_for(rest, key);
        let after = sources_for(sources, key);
        if rest.contains(source) {
            let k = choose|k: int| 0 <= k < rest.len() && rest[k] == source;
            assert(sources[k] == source);
        }
        if before.contains(source) {
            let k = choose|k: int| 0 <= k < before.len() && before[k] == source;
            assert(after[k] == source);
        }
        if sources.contains(source) {
            let k = choose|k: int| 0 <= k < n && sources[k] == source;
            if k < n - 1 {
                assert(rest[k] == source);
            } else if source.key == key {
                assert(after[after.len() - 1] == source);
            }
        }
        if after.contains(source) && !before.contains(source) {
            let k = choose|k: int| 0 <= k < after.len() && after[k] == source;
            if k < before.len() {
                assert(before[k] == source);
            }
            assert(sources[n - 1] == source);
        }
    }
}

/// The sources of a metric are tried in the order of their priorities, at most 32 of them; where
/// there are no more, each is tried.
pub proof fn law_sources_are_tried_by_priority(
    sources: Seq<SourceModel>,
    key: MetricKey,
    source: SourceModel,
)
    ensures
        ({
            let best = best_sources(sources, key);
            &&& best.len() <= 32
            &&& best.contains(source) ==> sources.contains(source) && source.key == key
            &&& sources_for(sources, key).len() <= 32 && sources.contains(source) && source.key
                == key ==> best.contains(source)
            &&& forall|p: int, q: int|
                0 <= p < q < best.len() ==> (#[trigger] best[p]).priority >= (
                #[trigger] best[q]).priority
        }),
{
    let all = sources_for(sources, key);
    let keys = all.map_values(
        |s: SourceModel| SourcePlace { priority: s.priority, definition: s.definition },
    );
    lemma_sources_for(sources, key, source);
    law_ordering_loses_nothing::<SourceKey, SourceModel>(all, keys, source);
    let order = crate::ordered::stable_order_of::<SourceKey>(keys);
    let sorted = crate::ordered::arranged(all, order);
    let best = best_sources(sources, key);
    if best.contains(source) {
        let p = choose|p: int| 0 <= p < best.len() && best[p] == source;
        assert(sorted[p] == source);
    }
    assert forall|p: int, q: int| 0 <= p < q < best.len() implies (#[trigger] best[p]).priority >= (
    #[trigger] best[q]).priority by {
        assert(sorted[p] == all[order[p]]);
        assert(sorted[q] == all[order[q]]);
    }
}

} // verus!
