//! The tables of a SoundFont file, and whether they point into one another. A
//! synthesizer that follows a table beyond its end stops the program, so a file is
//! looked at here before it is handed over.
//!
//! The file is walked as the synthesizer reads it: three lists, one behind the other,
//! whose items follow without a gap. Where an item occurs twice the later one counts.

use vstd::prelude::*;

use crate::bytes::{read_u16, read_u32};
use crate::sound_font::{tag_matches, PHDR_TAG, SHDR_TAG};

verus! {

use crate::bytes::{le16, le32};
use crate::sound_font::{has_tag, lemma_tag_bytes, spells};

pub const IFIL_TAG: [u8; 4] = [0x69, 0x66, 0x69, 0x6c];

pub const IVER_TAG: [u8; 4] = [0x69, 0x76, 0x65, 0x72];

pub const PBAG_TAG: [u8; 4] = [0x70, 0x62, 0x61, 0x67];

pub const PGEN_TAG: [u8; 4] = [0x70, 0x67, 0x65, 0x6e];

pub const INST_TAG: [u8; 4] = [0x69, 0x6e, 0x73, 0x74];

pub const IBAG_TAG: [u8; 4] = [0x69, 0x62, 0x61, 0x67];

pub const IGEN_TAG: [u8; 4] = [0x69, 0x67, 0x65, 0x6e];

// ---------------------------------------------------------------------------
// The walk

/// How many bytes the item at `at` takes, its header included. In the first list a
/// version takes four bytes, whatever size it states.
pub open spec fn item_len(data: Seq<u8>, at: int, first_list: bool) -> int {
    if first_list && (has_tag(data, at, IFIL_TAG@) || has_tag(data, at, IVER_TAG@)) {
        12
    } else {
        8 + le32(data, at + 4)
    }
}

/// Where the items from `at` on end: behind the first one that reaches `stop`. None
/// where an item runs over the end of the file.
pub open spec fn items_end(data: Seq<u8>, at: int, stop: int, first_list: bool) -> Option<int>
    decreases data.len() + 1 - at,
{
    if at >= stop {
        Some(at)
    } else if at < 0 || at + 8 > data.len() || at + item_len(data, at, first_list) > data.len() {
        None
    } else {
        items_end(data, at + item_len(data, at, first_list), stop, first_list)
    }
}

/// Where the items of the list at `at` must have ended, by the size that it states.
pub open spec fn list_stop(data: Seq<u8>, at: int) -> int {
    at + 8 + le32(data, at + 4)
}

/// Where the list at `at` ends.
pub open spec fn list_end(data: Seq<u8>, at: int, first_list: bool) -> Option<int> {
    if at + 12 > data.len() {
        None
    } else {
        items_end(data, at + 12, list_stop(data, at), first_list)
    }
}

/// Where a table starts, and how many bytes it has.
pub type Span = (usize, usize);

/// What a `Span` holds.
pub type SpanModel = (int, int);

/// The contents of the last item named `id` among those from `at` on.
pub open spec fn last_item(data: Seq<u8>, at: int, stop: int, id: Seq<u8>) -> Option<SpanModel>
    decreases data.len() + 1 - at,
{
    if at < 0 || at >= stop || at + 8 > data.len() || at + 8 + le32(data, at + 4) > data.len() {
        None
    } else {
        let size = le32(data, at + 4);
        match last_item(data, at + 8 + size, stop, id) {
            Some(later) => Some(later),
            None => if has_tag(data, at, id) {
                Some((at + 8, size))
            } else {
                None
            },
        }
    }
}

/// The tables of a file: headers, zones and generators of the presets and of the
/// instruments, and the sample headers.
pub struct FontTables {
    pub phdr: Span,
    pub pbag: Span,
    pub pgen: Span,
    pub inst: Span,
    pub ibag: Span,
    pub igen: Span,
    pub shdr: Span,
}

/// What `FontTables` holds.
pub struct TablesModel {
    pub phdr: SpanModel,
    pub pbag: SpanModel,
    pub pgen: SpanModel,
    pub inst: SpanModel,
    pub ibag: SpanModel,
    pub igen: SpanModel,
    pub shdr: SpanModel,
}

/// What a span holds.
pub open spec fn span_model(span: Span) -> SpanModel {
    (span.0 as int, span.1 as int)
}

impl View for FontTables {
    type V = TablesModel;

    open spec fn view(&self) -> TablesModel {
        TablesModel {
            phdr: span_model(self.phdr),
            pbag: span_model(self.pbag),
            pgen: span_model(self.pgen),
            inst: span_model(self.inst),
            ibag: span_model(self.ibag),
            igen: span_model(self.igen),
            shdr: span_model(self.shdr),
        }
    }
}

/// The tables of the list at `at`, where it has all of them.
pub open spec fn tables_in(data: Seq<u8>, at: int) -> Option<TablesModel> {
    let (first, stop) = (at + 12, list_stop(data, at));
    match (
        last_item(data, first, stop, PHDR_TAG@),
        last_item(data, first, stop, PBAG_TAG@),
        last_item(data, first, stop, PGEN_TAG@),
        last_item(data, first, stop, INST_TAG@),
        last_item(data, first, stop, IBAG_TAG@),
        last_item(data, first, stop, IGEN_TAG@),
        last_item(data, first, stop, SHDR_TAG@),
    ) {
        (Some(phdr), Some(pbag), Some(pgen), Some(inst), Some(ibag), Some(igen), Some(shdr)) => Some(
            TablesModel { phdr, pbag, pgen, inst, ibag, igen, shdr },
        ),
        _ => None,
    }
}

/// The tables of a file: those of its third list. None where the three lists are not
/// whole or a table is missing.
pub open spec fn tables_of(data: Seq<u8>) -> Option<TablesModel> {
    match list_end(data, 12, true) {
        Some(samples) => match list_end(data, samples, false) {
            Some(tables) => match list_end(data, tables, false) {
                Some(_) => tables_in(data, tables),
                None => None,
            },
            None => None,
        },
        None => None,
    }
}

// ---------------------------------------------------------------------------
// The tables

/// The first generator of zone `i` of a table of zones.
pub open spec fn zone_from(data: Seq<u8>, bag: SpanModel, i: int) -> int {
    le16(data, bag.0 + 4 * i)
}

/// The generators of zone `i` are in the table of generators.
pub open spec fn zone_fits(data: Seq<u8>, bag: SpanModel, gens: SpanModel, i: int) -> bool {
    zone_from(data, bag, i) < zone_from(data, bag, i + 1) ==> zone_from(data, bag, i + 1) < gens.1
        / 4
}

/// The generators of every zone are in the table of generators. The last entry of both
/// tables only closes them.
pub open spec fn zones_fit(data: Seq<u8>, bag: SpanModel, gens: SpanModel) -> bool {
    forall|i: int| 0 <= i && i + 1 < bag.1 / 4 ==> #[trigger] zone_fits(data, bag, gens, i)
}

/// The first zone of preset `i`.
pub open spec fn preset_from(data: Seq<u8>, phdr: SpanModel, i: int) -> int {
    le16(data, phdr.0 + 38 * i + 24)
}

/// The first zone of instrument `i`.
pub open spec fn instrument_from(data: Seq<u8>, inst: SpanModel, i: int) -> int {
    le16(data, inst.0 + 22 * i + 20)
}

/// The zones of preset `i` are in the table of zones.
pub open spec fn preset_fits(data: Seq<u8>, phdr: SpanModel, bag: SpanModel, i: int) -> bool {
    preset_from(data, phdr, i) < preset_from(data, phdr, i + 1) ==> preset_from(data, phdr, i + 1)
        < bag.1 / 4
}

/// The zones of every preset are in the table of zones.
pub open spec fn presets_fit(data: Seq<u8>, phdr: SpanModel, bag: SpanModel) -> bool {
    forall|i: int| 0 <= i && i + 1 < phdr.1 / 38 ==> #[trigger] preset_fits(data, phdr, bag, i)
}

/// The zones of instrument `i` are in the table of zones.
pub open spec fn instrument_fits(data: Seq<u8>, inst: SpanModel, bag: SpanModel, i: int) -> bool {
    instrument_from(data, inst, i) < instrument_from(data, inst, i + 1) ==> instrument_from(
        data,
        inst,
        i + 1,
    ) < bag.1 / 4
}

/// The zones of every instrument are in the table of zones.
pub open spec fn instruments_fit(data: Seq<u8>, inst: SpanModel, bag: SpanModel) -> bool {
    forall|i: int| 0 <= i && i + 1 < inst.1 / 22 ==> #[trigger] instrument_fits(data, inst, bag, i)
}

// ---------------------------------------------------------------------------
// Regions

/// A 16-bit value with its sign.
pub open spec fn signed16(value: int) -> int {
    if value < 0x8000 {
        value
    } else {
        value - 0x10000
    }
}

/// A 32-bit value with its sign.
pub open spec fn signed32(value: int) -> int {
    if value < 0x8000_0000 {
        value
    } else {
        value - 0x1_0000_0000
    }
}

/// What the last of the generators from `from` to `to` of this kind sets.
pub open spec fn last_setting(data: Seq<u8>, gens: int, from: int, to: int, kind: int) -> Option<int>
    decreases to - from,
{
    if to <= from {
        None
    } else if le16(data, gens + 4 * (to - 1)) == kind {
        Some(signed16(le16(data, gens + 4 * (to - 1) + 2)))
    } else {
        last_setting(data, gens, from, to - 1, kind)
    }
}

impl TablesModel {
    /// What a zone of an instrument sets.
    pub open spec fn zone_setting(self, data: Seq<u8>, zone: int, kind: int) -> Option<int> {
        last_setting(
            data,
            self.igen.0,
            zone_from(data, self.ibag, zone),
            zone_from(data, self.ibag, zone + 1),
            kind,
        )
    }

    /// What holds in a zone: what it sets, or what the global zone sets, or 0.
    pub open spec fn setting(self, data: Seq<u8>, global: Option<int>, zone: int, kind: int) -> int {
        match self.zone_setting(data, zone, kind) {
            Some(value) => value,
            None => match global {
                Some(global) => match self.zone_setting(data, global, kind) {
                    Some(value) => value,
                    None => 0,
                },
                None => 0,
            },
        }
    }

    /// The first zone of an instrument is a global one: its last generator names no
    /// sample.
    pub open spec fn is_global(self, data: Seq<u8>, zone: int) -> bool {
        let from = zone_from(data, self.ibag, zone);
        let to = zone_from(data, self.ibag, zone + 1);
        to <= from || le16(data, self.igen.0 + 4 * (to - 1)) != 53
    }

    /// The place in the sample header at `field`, moved by a coarse and a fine offset,
    /// can be counted.
    pub open spec fn place_fits(
        self,
        data: Seq<u8>,
        global: Option<int>,
        zone: int,
        field: int,
        coarse: int,
        fine: int,
    ) -> bool {
        i32::MIN <= signed32(le32(data, field)) + 32768 * self.setting(data, global, zone, coarse)
            + self.setting(data, global, zone, fine) <= i32::MAX
    }

    /// The four places of a region can be counted, where its sample is there.
    pub open spec fn region_fits(self, data: Seq<u8>, global: Option<int>, zone: int) -> bool {
        let id = self.setting(data, global, zone, 53);
        let header = self.shdr.0 + 46 * id;
        0 <= id && id + 1 < self.shdr.1 / 46 ==> {
            &&& self.place_fits(data, global, zone, header + 20, 4, 0)
            &&& self.place_fits(data, global, zone, header + 24, 12, 1)
            &&& self.place_fits(data, global, zone, header + 28, 45, 2)
            &&& self.place_fits(data, global, zone, header + 32, 50, 3)
        }
    }

    /// The global zone of an instrument whose first zone this is, where it has one.
    pub open spec fn global_zone(self, data: Seq<u8>, first: int) -> Option<int> {
        if self.is_global(data, first) {
            Some(first)
        } else {
            None
        }
    }

    /// The regions of instrument `i` can be counted.
    pub open spec fn regions_fit(self, data: Seq<u8>, i: int) -> bool {
        let first = instrument_from(data, self.inst, i);
        let end = instrument_from(data, self.inst, i + 1);
        let global = self.global_zone(data, first);
        forall|zone: int|
            first <= zone < end && global != Some(zone) ==> #[trigger] self.region_fits(
                data,
                global,
                zone,
            )
    }

    /// No table points beyond another's end, and all places can be counted.
    pub open spec fn fit(self, data: Seq<u8>) -> bool {
        &&& zones_fit(data, self.ibag, self.igen)
        &&& instruments_fit(data, self.inst, self.ibag)
        &&& zones_fit(data, self.pbag, self.pgen)
        &&& presets_fit(data, self.phdr, self.pbag)
        &&& forall|i: int|
            0 <= i && i + 1 < self.inst.1 / 22 ==> #[trigger] self.regions_fit(data, i)
    }
}

/// The file has all tables, no table points beyond another's end, and all places in
/// its samples can be counted.
pub open spec fn font_tables_fit(data: Seq<u8>) -> bool {
    tables_of(data) matches Some(tables) && tables.fit(data)
}

// ---------------------------------------------------------------------------
// Looking

/// The 16-bit value at `at`.
fn word(data: &[u8], at: usize) -> (r: u16)
    requires
        at + 2 <= data@.len(),
    ensures
        r == le16(data@, at as int),
{
    match read_u16(data, at) {
        Some(value) => value,
        None => 0,
    }
}

/// A place that may be missing.
pub open spec fn place_model(place: Option<usize>) -> Option<int> {
    match place {
        Some(place) => Some(place as int),
        None => None,
    }
}

/// Where the list at `at` ends.
fn find_list_end(data: &[u8], at: usize, first_list: bool) -> (r: Option<usize>)
    requires
        at <= data@.len(),
    ensures
        place_model(r) == list_end(data@, at as int, first_list),
        r matches Some(end) ==> end <= data@.len() && at + 12 <= data@.len(),
{
    let len = data.len();
    if len - at < 12 {
        return None;
    }
    let size = read_u32(data, at + 4)? as usize;
    let ghost stop = list_stop(data@, at as int);
    let mut item = at + 12;
    while item - at - 8 < size
        invariant
            len == data@.len(),
            at + 12 <= item <= len,
            stop == at + 8 + size == list_stop(data@, at as int),
            items_end(data@, at + 12, stop, first_list) == items_end(
                data@,
                item as int,
                stop,
                first_list,
            ),
        decreases len - item,
    {
        if len - item < 8 {
            return None;
        }
        let version = first_list && (tag_matches(data, item, &IFIL_TAG) || tag_matches(
            data,
            item,
            &IVER_TAG,
        ));
        let body = if version {
            4
        } else {
            read_u32(data, item + 4)? as usize
        };
        if body > len - item - 8 {
            return None;
        }
        item = item + 8 + body;
    }
    Some(item)
}

/// A span that may be missing.
pub open spec fn optional_span(span: Option<Span>) -> Option<SpanModel> {
    match span {
        Some(span) => Some(span_model(span)),
        None => None,
    }
}

/// The contents of the last item named `id` of the list at `at`.
fn find_last_item(data: &[u8], at: usize, id: &[u8; 4]) -> (r: Option<Span>)
    requires
        at + 12 <= data@.len(),
    ensures
        optional_span(r) == last_item(data@, at + 12, list_stop(data@, at as int), id@),
        r matches Some((start, len)) ==> start + len <= data@.len(),
{
    let len = data.len();
    let size = read_u32(data, at + 4)? as usize;
    let ghost stop = list_stop(data@, at as int);
    let mut item = at + 12;
    let mut found: Option<Span> = None;
    while item - at - 8 < size && len - item >= 8
        invariant
            len == data@.len(),
            at + 12 <= item <= len,
            stop == at + 8 + size == list_stop(data@, at as int),
            found matches Some((start, count)) ==> start + count <= len,
            last_item(data@, at + 12, stop, id@) == match last_item(
                data@,
                item as int,
                stop,
                id@,
            ) {
                Some(later) => Some(later),
                None => optional_span(found),
            },
        decreases len - item,
    {
        let body = read_u32(data, item + 4)? as usize;
        if body > len - item - 8 {
            return found;
        }
        if tag_matches(data, item, id) {
            found = Some((item + 8, body));
        }
        item = item + 8 + body;
    }
    found
}

/// The tables lie within `len` bytes.
pub open spec fn in_file(tables: TablesModel, len: int) -> bool {
    &&& 0 <= tables.phdr.0 && 0 <= tables.phdr.1 && tables.phdr.0 + tables.phdr.1 <= len
    &&& 0 <= tables.pbag.0 && 0 <= tables.pbag.1 && tables.pbag.0 + tables.pbag.1 <= len
    &&& 0 <= tables.pgen.0 && 0 <= tables.pgen.1 && tables.pgen.0 + tables.pgen.1 <= len
    &&& 0 <= tables.inst.0 && 0 <= tables.inst.1 && tables.inst.0 + tables.inst.1 <= len
    &&& 0 <= tables.ibag.0 && 0 <= tables.ibag.1 && tables.ibag.0 + tables.ibag.1 <= len
    &&& 0 <= tables.igen.0 && 0 <= tables.igen.1 && tables.igen.0 + tables.igen.1 <= len
    &&& 0 <= tables.shdr.0 && 0 <= tables.shdr.1 && tables.shdr.0 + tables.shdr.1 <= len
}

/// The tables of a file.
pub fn find_tables(data: &[u8]) -> (r: Option<FontTables>)
    ensures
        match r {
            Some(tables) => tables_of(data@) == Some(tables@) && in_file(
                tables@,
                data@.len() as int,
            ),
            None => tables_of(data@) is None,
        },
{
    if data.len() < 12 {
        return None;
    }
    let samples = find_list_end(data, 12, true)?;
    let at = find_list_end(data, samples, false)?;
    let _ = find_list_end(data, at, false)?;
    let phdr = find_last_item(data, at, &PHDR_TAG)?;
    let pbag = find_last_item(data, at, &PBAG_TAG)?;
    let pgen = find_last_item(data, at, &PGEN_TAG)?;
    let inst = find_last_item(data, at, &INST_TAG)?;
    let ibag = find_last_item(data, at, &IBAG_TAG)?;
    let igen = find_last_item(data, at, &IGEN_TAG)?;
    let shdr = find_last_item(data, at, &SHDR_TAG)?;
    Some(FontTables { phdr, pbag, pgen, inst, ibag, igen, shdr })
}

/// Whether the generators of every zone are in the table of generators.
fn check_zones(data: &[u8], bag: Span, gens: Span) -> (r: bool)
    requires
        bag.0 + bag.1 <= data@.len(),
    ensures
        r == zones_fit(data@, span_model(bag), span_model(gens)),
{
    let len = data.len();
    let count = bag.1 / 4;
    let ghost model = span_model(bag);
    let mut index: usize = 0;
    while index + 1 < count
        invariant
            len == data@.len(),
            bag.0 + bag.1 <= len,
            count == bag.1 / 4,
            model == span_model(bag),
            index <= count,
            forall|i: int|
                0 <= i < index ==> #[trigger] zone_fits(data@, model, span_model(gens), i),
        decreases count - index,
    {
        let from = word(data, bag.0 + 4 * index);
        let to = word(data, bag.0 + 4 * (index + 1));
        assert(from == zone_from(data@, model, index as int));
        assert(to == zone_from(data@, model, index + 1));
        if from < to && to as usize >= gens.1 / 4 {
            assert(!zone_fits(data@, model, span_model(gens), index as int));
            return false;
        }
        index += 1;
    }
    true
}

/// Whether the zones of every preset are in the table of zones.
fn check_presets(data: &[u8], phdr: Span, bag: Span) -> (r: bool)
    requires
        phdr.0 + phdr.1 <= data@.len(),
    ensures
        r == presets_fit(data@, span_model(phdr), span_model(bag)),
{
    let len = data.len();
    let count = phdr.1 / 38;
    let ghost model = span_model(phdr);
    let mut index: usize = 0;
    while index + 1 < count
        invariant
            len == data@.len(),
            phdr.0 + phdr.1 <= len,
            count == phdr.1 / 38,
            model == span_model(phdr),
            index <= count,
            forall|i: int|
                0 <= i < index ==> #[trigger] preset_fits(data@, model, span_model(bag), i),
        decreases count - index,
    {
        let from = word(data, phdr.0 + 38 * index + 24);
        let to = word(data, phdr.0 + 38 * (index + 1) + 24);
        assert(from == preset_from(data@, model, index as int));
        assert(to == preset_from(data@, model, index + 1));
        if from < to && to as usize >= bag.1 / 4 {
            assert(!preset_fits(data@, model, span_model(bag), index as int));
            return false;
        }
        index += 1;
    }
    true
}

/// Whether the zones of every instrument are in the table of zones.
fn check_instruments(data: &[u8], inst: Span, bag: Span) -> (r: bool)
    requires
        inst.0 + inst.1 <= data@.len(),
    ensures
        r == instruments_fit(data@, span_model(inst), span_model(bag)),
{
    let len = data.len();
    let count = inst.1 / 22;
    let ghost model = span_model(inst);
    let mut index: usize = 0;
    while index + 1 < count
        invariant
            len == data@.len(),
            inst.0 + inst.1 <= len,
            count == inst.1 / 22,
            model == span_model(inst),
            index <= count,
            forall|i: int|
                0 <= i < index ==> #[trigger] instrument_fits(data@, model, span_model(bag), i),
        decreases count - index,
    {
        let from = word(data, inst.0 + 22 * index + 20);
        let to = word(data, inst.0 + 22 * (index + 1) + 20);
        assert(from == instrument_from(data@, model, index as int));
        assert(to == instrument_from(data@, model, index + 1));
        if from < to && to as usize >= bag.1 / 4 {
            assert(!instrument_fits(data@, model, span_model(bag), index as int));
            return false;
        }
        index += 1;
    }
    true
}

impl FontTables {
    /// What a zone of an instrument sets.
    fn find_setting(&self, data: &[u8], zone: usize, kind: u16) -> (r: Option<i32>)
        requires
            in_file(self@, data@.len() as int),
            zones_fit(data@, self@.ibag, self@.igen),
            zone + 1 < self.ibag.1 / 4,
        ensures
            match r {
                Some(value) => self@.zone_setting(data@, zone as int, kind as int) == Some(
                    value as int,
                ) && -0x8000 <= value < 0x8000,
                None => self@.zone_setting(data@, zone as int, kind as int) is None,
            },
    {
        let len = data.len();
        let from = word(data, self.ibag.0 + 4 * zone) as usize;
        let to = word(data, self.ibag.0 + 4 * (zone + 1)) as usize;
        let gens = self.igen.0;
        assert(from == zone_from(data@, self@.ibag, zone as int));
        assert(to == zone_from(data@, self@.ibag, zone + 1));
        assert(zone_fits(data@, self@.ibag, self@.igen, zone as int));
        let mut at = to;
        while at > from
            invariant
                len == data@.len(),
                from == zone_from(data@, self@.ibag, zone as int),
                to == zone_from(data@, self@.ibag, zone + 1),
                from < at ==> at <= to < self.igen.1 / 4,
                gens == self.igen.0,
                gens + self.igen.1 <= len,
                last_setting(data@, gens as int, from as int, to as int, kind as int)
                    == last_setting(data@, gens as int, from as int, at as int, kind as int),
            decreases at,
        {
            if word(data, gens + 4 * (at - 1)) == kind {
                let value = word(data, gens + 4 * (at - 1) + 2) as i32;
                return Some(
                    if value < 0x8000 {
                        value
                    } else {
                        value - 0x10000
                    },
                );
            }
            at -= 1;
        }
        None
    }

    /// What holds in a zone.
    fn setting(&self, data: &[u8], global: Option<usize>, zone: usize, kind: u16) -> (r: i32)
        requires
            in_file(self@, data@.len() as int),
            zones_fit(data@, self@.ibag, self@.igen),
            zone + 1 < self.ibag.1 / 4,
            global matches Some(global) ==> global + 1 < self.ibag.1 / 4,
        ensures
            r == self@.setting(data@, place_model(global), zone as int, kind as int),
            -0x8000 <= r < 0x8000,
    {
        match self.find_setting(data, zone, kind) {
            Some(value) => value,
            None => match global {
                Some(global) => match self.find_setting(data, global, kind) {
                    Some(value) => value,
                    None => 0,
                },
                None => 0,
            },
        }
    }

    /// Whether a moved place can be counted.
    fn place_fits(
        &self,
        data: &[u8],
        global: Option<usize>,
        zone: usize,
        field: usize,
        coarse: u16,
        fine: u16,
    ) -> (r: bool)
        requires
            in_file(self@, data@.len() as int),
            zones_fit(data@, self@.ibag, self@.igen),
            zone + 1 < self.ibag.1 / 4,
            global matches Some(global) ==> global + 1 < self.ibag.1 / 4,
            field + 4 <= data@.len(),
        ensures
            r == self@.place_fits(
                data@,
                place_model(global),
                zone as int,
                field as int,
                coarse as int,
                fine as int,
            ),
    {
        let stored: i64 = match read_u32(data, field) {
            Some(value) => value as i64,
            None => 0,
        };
        let place: i64 = if stored < 0x8000_0000 {
            stored
        } else {
            stored - 0x1_0000_0000
        };
        let coarse = self.setting(data, global, zone, coarse) as i64;
        let fine = self.setting(data, global, zone, fine) as i64;
        let sum: i64 = place + 32768 * coarse + fine;
        i32::MIN as i64 <= sum && sum <= i32::MAX as i64
    }

    /// Whether the four places of a region can be counted.
    fn region_fits(&self, data: &[u8], global: Option<usize>, zone: usize) -> (r: bool)
        requires
            in_file(self@, data@.len() as int),
            zones_fit(data@, self@.ibag, self@.igen),
            zone + 1 < self.ibag.1 / 4,
            global matches Some(global) ==> global + 1 < self.ibag.1 / 4,
        ensures
            r == self@.region_fits(data@, place_model(global), zone as int),
    {
        let len = data.len();
        let id = self.setting(data, global, zone, 53);
        if id < 0 {
            return true;
        }
        let id = id as usize;
        if id + 1 >= self.shdr.1 / 46 {
            return true;
        }
        let header = self.shdr.0 + 46 * id;
        self.place_fits(data, global, zone, header + 20, 4, 0) && self.place_fits(
            data,
            global,
            zone,
            header + 24,
            12,
            1,
        ) && self.place_fits(data, global, zone, header + 28, 45, 2) && self.place_fits(
            data,
            global,
            zone,
            header + 32,
            50,
            3,
        )
    }

    /// Whether the regions of instrument `index` can be counted.
    fn regions_fit(&self, data: &[u8], index: usize) -> (r: bool)
        requires
            in_file(self@, data@.len() as int),
            zones_fit(data@, self@.ibag, self@.igen),
            instruments_fit(data@, self@.inst, self@.ibag),
            index + 1 < self.inst.1 / 22,
        ensures
            r == self@.regions_fit(data@, index as int),
    {
        let len = data.len();
        let first = word(data, self.inst.0 + 22 * index + 20) as usize;
        let end = word(data, self.inst.0 + 22 * (index + 1) + 20) as usize;
        assert(first == instrument_from(data@, self@.inst, index as int));
        assert(end == instrument_from(data@, self@.inst, index + 1));
        if first >= end {
            return true;
        }
        assert(instrument_fits(data@, self@.inst, self@.ibag, index as int));
        let from = word(data, self.ibag.0 + 4 * first) as usize;
        let to = word(data, self.ibag.0 + 4 * (first + 1)) as usize;
        assert(from == zone_from(data@, self@.ibag, first as int));
        assert(to == zone_from(data@, self@.ibag, first + 1));
        assert(zone_fits(data@, self@.ibag, self@.igen, first as int));
        let is_global = to <= from || word(data, self.igen.0 + 4 * (to - 1)) != 53;
        let global = if is_global {
            Some(first)
        } else {
            None
        };
        let ghost model = place_model(global);
        assert(model == self@.global_zone(data@, first as int));
        let mut zone = if is_global {
            first + 1
        } else {
            first
        };
        while zone < end
            invariant
                in_file(self@, data@.len() as int),
                zones_fit(data@, self@.ibag, self@.igen),
                first <= zone,
                zone == first ==> global is None,
                first < end < self.ibag.1 / 4,
                global matches Some(global) ==> global == first,
                model == place_model(global),
                first == instrument_from(data@, self@.inst, index as int),
                end == instrument_from(data@, self@.inst, index + 1),
                model == self@.global_zone(data@, first as int),
                forall|z: int|
                    first <= z < zone && model != Some(z) ==> #[trigger] self@.region_fits(
                        data@,
                        model,
                        z,
                    ),
            decreases end - zone,
        {
            if !self.region_fits(data, global, zone) {
                assert(model != Some(zone as int));
                return false;
            }
            zone += 1;
        }
        true
    }
}

/// Whether the file has all tables, no table points beyond another's end, and all
/// places in its samples can be counted.
pub fn tables_fit(data: &[u8]) -> (r: bool)
    ensures
        r == font_tables_fit(data@),
{
    let tables = match find_tables(data) {
        Some(tables) => tables,
        None => return false,
    };
    if !check_zones(data, tables.ibag, tables.igen) || !check_instruments(
        data,
        tables.inst,
        tables.ibag,
    ) || !check_zones(data, tables.pbag, tables.pgen) || !check_presets(
        data,
        tables.phdr,
        tables.pbag,
    ) {
        return false;
    }
    let count = tables.inst.1 / 22;
    let mut index: usize = 0;
    while index + 1 < count
        invariant
            count == tables.inst.1 / 22,
            index <= count,
            in_file(tables@, data@.len() as int),
            zones_fit(data@, tables@.ibag, tables@.igen),
            instruments_fit(data@, tables@.inst, tables@.ibag),
            forall|i: int| 0 <= i < index ==> #[trigger] tables@.regions_fit(data@, i),
            tables_of(data@) == Some(tables@),
        decreases count - index,
    {
        if !tables.regions_fit(data, index) {
            return false;
        }
        index += 1;
    }
    true
}

// ---------------------------------------------------------------------------
// What fitting tables promise

/// The tables of a font are found by their letters.
pub proof fn lemma_table_tags_are_their_letters(data: Seq<u8>, at: int)
    requires
        0 <= at,
        at + 4 <= data.len(),
    ensures
        has_tag(data, at, IFIL_TAG@) <==> spells(data, at, 'i', 'f', 'i', 'l'),
        has_tag(data, at, IVER_TAG@) <==> spells(data, at, 'i', 'v', 'e', 'r'),
        has_tag(data, at, PBAG_TAG@) <==> spells(data, at, 'p', 'b', 'a', 'g'),
        has_tag(data, at, PGEN_TAG@) <==> spells(data, at, 'p', 'g', 'e', 'n'),
        has_tag(data, at, INST_TAG@) <==> spells(data, at, 'i', 'n', 's', 't'),
        has_tag(data, at, IBAG_TAG@) <==> spells(data, at, 'i', 'b', 'a', 'g'),
        has_tag(data, at, IGEN_TAG@) <==> spells(data, at, 'i', 'g', 'e', 'n'),
{
    lemma_tag_bytes(data, at, IFIL_TAG@);
    lemma_tag_bytes(data, at, IVER_TAG@);
    lemma_tag_bytes(data, at, PBAG_TAG@);
    lemma_tag_bytes(data, at, PGEN_TAG@);
    lemma_tag_bytes(data, at, INST_TAG@);
    lemma_tag_bytes(data, at, IBAG_TAG@);
    lemma_tag_bytes(data, at, IGEN_TAG@);
}

/// An item that is found has its tag before it and the size that it states, and lies
/// within the file.
pub proof fn lemma_found_item_has_its_tag(data: Seq<u8>, at: int, stop: int, id: Seq<u8>)
    requires
        0 <= at,
    ensures
        last_item(data, at, stop, id) matches Some((start, size)) ==> {
            &&& at + 8 <= start < stop + 8
            &&& start + size <= data.len()
            &&& data.subrange(start - 8, start - 4) == id
            &&& le32(data, start - 4) == size
        },
    decreases data.len() + 1 - at,
{
    if at < stop && at + 8 <= data.len() && at + 8 + le32(data, at + 4) <= data.len() {
        lemma_found_item_has_its_tag(data, at + 8 + le32(data, at + 4), stop, id);
    }
}

/// Of two items of one name the later one counts, and one at the end is found.
pub proof fn lemma_later_item_counts(data: Seq<u8>, at: int, stop: int, id: Seq<u8>)
    requires
        0 <= at < stop,
        at + 8 + le32(data, at + 4) <= data.len(),
    ensures
        ({
            let next = at + 8 + le32(data, at + 4);
            &&& last_item(data, next, stop, id) is Some ==> last_item(data, at, stop, id)
                == last_item(data, next, stop, id)
            &&& last_item(data, next, stop, id) is None && data.subrange(at, at + 4) == id
                ==> last_item(data, at, stop, id) == Some((at + 8, le32(data, at + 4)))
            &&& last_item(data, next, stop, id) is None && data.subrange(at, at + 4) != id
                ==> last_item(data, at, stop, id) is None
        }),
{
}

/// Every generator of a zone lies in the table of generators.
pub proof fn lemma_generators_lie_in_their_table(
    data: Seq<u8>,
    bag: SpanModel,
    gens: SpanModel,
    zone: int,
    generator: int,
)
    requires
        zones_fit(data, bag, gens),
        0 <= zone,
        4 * (zone + 2) <= bag.1,
        data[bag.0 + 4 * zone] + 256 * data[bag.0 + 4 * zone + 1] <= generator,
        generator < data[bag.0 + 4 * (zone + 1)] + 256 * data[bag.0 + 4 * (zone + 1) + 1],
    ensures
        0 <= generator,
        gens.0 + 4 * generator + 4 <= gens.0 + gens.1,
{
    assert(zone_fits(data, bag, gens, zone));
}

/// Every zone of a preset, and the one that closes it, lies in the table of zones.
pub proof fn lemma_preset_zones_lie_in_their_table(
    data: Seq<u8>,
    phdr: SpanModel,
    bag: SpanModel,
    preset: int,
    zone: int,
)
    requires
        presets_fit(data, phdr, bag),
        0 <= preset,
        38 * (preset + 2) <= phdr.1,
        data[phdr.0 + 38 * preset + 24] + 256 * data[phdr.0 + 38 * preset + 25] <= zone,
        zone < data[phdr.0 + 38 * (preset + 1) + 24] + 256 * data[phdr.0 + 38 * (preset + 1) + 25],
    ensures
        0 <= zone,
        bag.0 + 4 * (zone + 1) + 4 <= bag.0 + bag.1,
{
    assert(preset_fits(data, phdr, bag, preset));
}

/// Every zone of an instrument, and the one that closes it, lies in the table of zones.
pub proof fn lemma_instrument_zones_lie_in_their_table(
    data: Seq<u8>,
    inst: SpanModel,
    bag: SpanModel,
    instrument: int,
    zone: int,
)
    requires
        instruments_fit(data, inst, bag),
        0 <= instrument,
        22 * (instrument + 2) <= inst.1,
        data[inst.0 + 22 * instrument + 20] + 256 * data[inst.0 + 22 * instrument + 21] <= zone,
        zone < data[inst.0 + 22 * (instrument + 1) + 20] + 256 * data[inst.0 + 22 * (instrument + 1)
            + 21],
    ensures
        0 <= zone,
        bag.0 + 4 * (zone + 1) + 4 <= bag.0 + bag.1,
{
    assert(instrument_fits(data, inst, bag, instrument));
}

/// Values with a sign are those of two's complement.
pub proof fn lemma_signed_values(half: u16, word: u32)
    ensures
        -0x8000 <= signed16(half as int) < 0x8000,
        (signed16(half as int) - half) % 0x10000 == 0,
        -0x8000_0000 <= signed32(word as int) < 0x8000_0000,
        (signed32(word as int) - word) % 0x1_0000_0000 == 0,
{
}

/// Of the generators of one kind the last one counts.
pub proof fn lemma_last_generator_counts(data: Seq<u8>, gens: int, from: int, to: int, kind: int)
    requires
        from < to,
    ensures
        ({
            let last = gens + 4 * (to - 1);
            let names = data[last] + 256 * data[last + 1];
            &&& names == kind ==> last_setting(data, gens, from, to, kind) == Some(
                signed16(data[last + 2] + 256 * data[last + 3]),
            )
            &&& names != kind ==> last_setting(data, gens, from, to, kind) == last_setting(
                data,
                gens,
                from,
                to - 1,
                kind,
            )
        }),
        last_setting(data, gens, from, from, kind) is None,
{
}

/// What a zone sets holds in it, then what the global zone sets, then nothing.
pub proof fn lemma_zone_comes_before_the_global_zone(
    tables: TablesModel,
    data: Seq<u8>,
    global: int,
    zone: int,
    kind: int,
)
    ensures
        tables.zone_setting(data, zone, kind) matches Some(value) ==> tables.setting(
            data,
            Some(global),
            zone,
            kind,
        ) == value && tables.setting(data, None, zone, kind) == value,
        tables.zone_setting(data, zone, kind) is None ==> tables.setting(data, None, zone, kind)
            == 0,
        tables.zone_setting(data, zone, kind) is None ==> (tables.zone_setting(
            data,
            global,
            kind,
        ) matches Some(value) ==> tables.setting(data, Some(global), zone, kind) == value),
{
}

/// The start, end, loop start and loop end of a region, each moved by its own two offsets,
/// are 32-bit numbers.
pub proof fn lemma_places_can_be_counted(
    tables: TablesModel,
    data: Seq<u8>,
    instrument: int,
    zone: int,
)
    requires
        tables.fit(data),
        0 <= instrument,
        22 * (instrument + 2) <= tables.inst.1,
        instrument_from(data, tables.inst, instrument) <= zone,
        zone < instrument_from(data, tables.inst, instrument + 1),
    ensures
        ({
            let first = instrument_from(data, tables.inst, instrument);
            let global = tables.global_zone(data, first);
            let id = tables.setting(data, global, zone, 53);
            let header = tables.shdr.0 + 46 * id;
            let moved = |field: int, coarse: int, fine: int|
                signed32(le32(data, header + field)) + 32768 * tables.setting(
                    data,
                    global,
                    zone,
                    coarse,
                ) + tables.setting(data, global, zone, fine);
            global != Some(zone) && 0 <= id && 46 * (id + 2) <= tables.shdr.1 ==> {
                &&& i32::MIN <= moved(20, 4, 0) <= i32::MAX
                &&& i32::MIN <= moved(24, 12, 1) <= i32::MAX
                &&& i32::MIN <= moved(28, 45, 2) <= i32::MAX
                &&& i32::MIN <= moved(32, 50, 3) <= i32::MAX
            }
        }),
{
    let first = instrument_from(data, tables.inst, instrument);
    let global = tables.global_zone(data, first);
    assert(tables.regions_fit(data, instrument));
    if global != Some(zone) {
        assert(tables.region_fits(data, global, zone));
    }
}

/// A font that is handed over has all its tables, and they fit; a file that is not whole
/// is not handed over.
pub proof fn lemma_fitting_file_has_its_tables(data: Seq<u8>)
    ensures
        font_tables_fit(data) ==> (tables_of(data) matches Some(tables) && zones_fit(
            data,
            tables.ibag,
            tables.igen,
        ) && zones_fit(data, tables.pbag, tables.pgen) && instruments_fit(
            data,
            tables.inst,
            tables.ibag,
        ) && presets_fit(data, tables.phdr, tables.pbag)),
        data.len() < 24 ==> !font_tables_fit(data),
{
}

} // verus!
