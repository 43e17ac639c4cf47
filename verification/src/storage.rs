//! Where the guest's files and records are kept below a base directory. No guest
//! path leads out of the directory of its application.

use vstd::prelude::*;

use crate::option_list::DirectoryEntry;
use crate::text::{chars_of, decimal_text, find_in, parse_number, same_text, text_of};

verus! {

use crate::option_list::texts;
use crate::table::lemma_push_contains;
use crate::text::{decimal, find_char, lemma_decimal_reads_back, lemma_find_char, number_of};

/// A path below a base directory, part by part.
pub struct DiskPath {
    pub base: String,
    pub parts: Vec<String>,
}

impl DiskPath {
    /// The parts below the base directory.
    pub open spec fn names(&self) -> Seq<Seq<char>> {
        texts(self.parts@)
    }
}

/// A name of one file or directory, which leads neither up nor down nor nowhere.
pub open spec fn is_plain(part: Seq<char>) -> bool {
    part.len() > 0 && part != "."@ && part != ".."@ && !part.contains('/')
}

// ---------------------------------------------------------------------------
// Application names

/// The character may stand in the name of an application's directory.
pub open spec fn allowed(c: char) -> bool {
    c != '/' && c != '\\' && c != '\0'
}

/// The name without the characters that may not stand in it.
pub open spec fn sanitized(name: Seq<char>) -> Seq<char> {
    name.filter(|c: char| allowed(c))
}

proof fn lemma_filter_push(s: Seq<char>, c: char)
    ensures
        sanitized(s.push(c)) == if allowed(c) {
            sanitized(s).push(c)
        } else {
            sanitized(s)
        },
{
    reveal(Seq::filter);
    assert(s.push(c).drop_last() =~= s);
}

proof fn lemma_sanitized(s: Seq<char>)
    ensures
        forall|i: int| 0 <= i < sanitized(s).len() ==> allowed(#[trigger] sanitized(s)[i]),
    decreases s.len(),
{
    if s.len() > 0 {
        lemma_sanitized(s.drop_last());
        assert(s =~= s.drop_last().push(s.last()));
        lemma_filter_push(s.drop_last(), s.last());
        let before = sanitized(s.drop_last());
        let after = sanitized(s);
        assert forall|i: int| 0 <= i < after.len() implies allowed(#[trigger] after[i]) by {
            if i < before.len() {
                assert(after[i] == before[i]);
            }
        }
    } else {
        reveal(Seq::filter);
    }
}

/// The name leads nowhere or to another directory.
pub open spec fn is_unfit(name: Seq<char>) -> bool {
    name.len() == 0 || name == "."@ || name == ".."@
}

fn sanitize(name: &str) -> (r: String)
    ensures
        r@ == sanitized(name@),
{
    let chars = chars_of(name);
    let mut kept = String::new();
    proof {
        reveal(Seq::filter);
        assert(kept@ =~= sanitized(chars@.take(0)));
    }
    for index in 0..chars.len()
        invariant
            chars@ == name@,
            kept@ == sanitized(chars@.take(index as int)),
    {
        let c = chars[index];
        proof {
            assert(chars@.take(index + 1) =~= chars@.take(index as int).push(c));
            lemma_filter_push(chars@.take(index as int), c);
        }
        if c != '/' && c != '\\' && c != '\0' {
            kept.push(c);
        }
    }
    assert(chars@.take(chars@.len() as int) =~= chars@);
    kept
}

fn unfit(name: &str) -> (r: bool)
    ensures
        r == is_unfit(name@),
{
    let chars = chars_of(name);
    chars.len() == 0 || same_text(name, ".") || same_text(name, "..")
}

// ---------------------------------------------------------------------------
// Databases

/// The directory of an application's databases: a name that is not fit is
/// replaced.
pub open spec fn database_scope(app_id: Seq<char>) -> Seq<char> {
    if is_unfit(sanitized(app_id)) {
        "_"@
    } else {
        sanitized(app_id)
    }
}

/// The name of a database, with what could mislead replaced.
pub open spec fn masked(name: Seq<char>) -> Seq<char> {
    name.map_values(
        |c: char|
            if c == '\\' || c == '\0' {
                '_'
            } else {
                c
            },
    )
}

/// What a segment of a database name adds to its path.
pub open spec fn database_part(segment: Seq<char>) -> Seq<Seq<char>> {
    if segment.len() == 0 || segment == "."@ {
        Seq::empty()
    } else if segment == ".."@ {
        seq!["_"@]
    } else {
        seq![segment]
    }
}

/// What the segments from `from` on add to the path.
pub open spec fn database_parts(name: Seq<char>, from: int) -> Seq<Seq<char>>
    decreases name.len() - from,
{
    if from < 0 || from > name.len() {
        Seq::empty()
    } else {
        let end = from + find_char(name.skip(from), '/', 0);
        let head = database_part(name.subrange(from, end));
        if end >= name.len() || end < from {
            head
        } else {
            head + database_parts(name, end + 1)
        }
    }
}

/// The path of a database below the base directory.
pub open spec fn database_path(name: Seq<char>, app_id: Seq<char>) -> Seq<Seq<char>> {
    let parts = database_parts(masked(name), 0);
    seq![database_scope(app_id), "db"@] + if parts.len() == 0 {
        seq!["_"@]
    } else {
        parts
    }
}

fn mask(name: &str) -> (r: Vec<char>)
    ensures
        r@ == masked(name@),
{
    let chars = chars_of(name);
    let mut list: Vec<char> = Vec::new();
    for index in 0..chars.len()
        invariant
            chars@ == name@,
            list@.len() == index,
            forall|i: int| 0 <= i < index ==> list@[i] == masked(name@)[i],
    {
        let c = chars[index];
        if c == '\\' || c == '\0' {
            list.push('_');
        } else {
            list.push(c);
        }
    }
    assert(list@ =~= masked(name@));
    list
}

proof fn lemma_texts_push(list: Seq<String>, text: String)
    ensures
        texts(list.push(text)) == texts(list).push(text@),
{
    assert(texts(list.push(text)) =~= texts(list).push(text@));
}

/// The databases of all applications.
pub struct LibretroDatabaseRepository {
    base_path: String,
}

impl LibretroDatabaseRepository {
    /// The directory that all is kept in.
    pub closed spec fn base(&self) -> Seq<char> {
        self.base_path@
    }

    pub fn new(base_path: String) -> (r: Self)
        ensures
            r.base() == base_path@,
    {
        LibretroDatabaseRepository { base_path }
    }

    /// Where a database of an application is.
    pub fn path_for_database(&self, name: &str, app_id: &str) -> (r: DiskPath)
        ensures
            r.base@ == self.base(),
            r.names() == database_path(name@, app_id@),
    {
        let sanitized_app_id = sanitize(app_id);
        let scope = if unfit(sanitized_app_id.as_str()) {
            "_".to_owned()
        } else {
            sanitized_app_id
        };
        let mut parts: Vec<String> = Vec::new();
        parts.push(scope);
        parts.push("db".to_owned());
        let ghost front = seq![database_scope(app_id@), "db"@];
        assert(texts(parts@) =~= front);
        let chars = mask(name);
        let count = chars.len();
        let ghost whole = masked(name@);
        let mut from: usize = 0;
        let mut last = false;
        assert(front + database_parts(whole, 0) =~= texts(parts@) + database_parts(whole, 0));
        while !last
            invariant
                chars@ == whole,
                count == whole.len(),
                from <= count,
                texts(parts@) + (if last {
                    Seq::<Seq<char>>::empty()
                } else {
                    database_parts(whole, from as int)
                }) == front + database_parts(whole, 0),
                parts@.len() >= 2,
            decreases count - from, if last { 0int } else { 1int },
        {
            let end = find_in(chars.as_slice(), '/', from, count);
            assert(whole.skip(from as int) =~= whole.subrange(from as int, count as int));
            let segment = text_of(chars.as_slice(), from, end);
            let ghost before = texts(parts@);
            let ghost rest = if end >= count {
                Seq::<Seq<char>>::empty()
            } else {
                database_parts(whole, end + 1)
            };
            assert(database_parts(whole, from as int) =~= database_part(segment@) + rest);
            if unfit(segment.as_str()) {
                if same_text(segment.as_str(), "..") {
                    let part = "_".to_owned();
                    proof {
                        lemma_texts_push(parts@, part);
                        reveal_strlit(".");
                        reveal_strlit("..");
                    }
                    parts.push(part);
                }
            } else {
                proof {
                    lemma_texts_push(parts@, segment);
                }
                parts.push(segment);
            }
            assert(texts(parts@) =~= before + database_part(segment@));
            assert(texts(parts@) + rest =~= before + (database_part(segment@) + rest));
            if end < count {
                from = end + 1;
            } else {
                last = true;
            }
        }
        assert(texts(parts@) =~= front + database_parts(whole, 0));
        if parts.len() == 2 {
            let part = "_".to_owned();
            proof {
                lemma_texts_push(parts@, part);
                assert(database_parts(whole, 0).len() == 0);
            }
            parts.push(part);
            assert(texts(parts@) =~= database_path(name@, app_id@));
        } else {
            assert(database_parts(whole, 0).len() > 0);
        }
        DiskPath { base: self.base_path.as_str().to_owned(), parts }
    }
}

// ---------------------------------------------------------------------------
// Records

/// A database: one file for each record.
pub struct LibretroDatabase {
    path: DiskPath,
}

impl LibretroDatabase {
    /// The base directory.
    pub closed spec fn base(&self) -> Seq<char> {
        self.path.base@
    }

    /// The parts of the database's directory.
    pub closed spec fn names(&self) -> Seq<Seq<char>> {
        self.path.names()
    }

    pub fn new(path: DiskPath) -> (r: Self)
        ensures
            r.base() == path.base@,
            r.names() == path.names(),
    {
        LibretroDatabase { path }
    }

    /// The file of a record.
    pub fn path_for_record(&self, id: u32) -> (r: DiskPath)
        ensures
            r.base@ == self.base(),
            r.names() == self.names().push(decimal(id as nat)),
    {
        let mut parts: Vec<String> = Vec::new();
        for index in 0..self.path.parts.len()
            invariant
                texts(parts@) == self.names().take(index as int),
        {
            let part = self.path.parts[index].as_str().to_owned();
            proof {
                lemma_texts_push(parts@, part);
                assert(self.names().take(index + 1) =~= self.names().take(index as int).push(part@));
            }
            parts.push(part);
        }
        let record = decimal_text(id);
        proof {
            lemma_texts_push(parts@, record);
            assert(self.names().take(self.names().len() as int) =~= self.names());
        }
        parts.push(record);
        DiskPath { base: self.path.base.as_str().to_owned(), parts }
    }

    /// The first number, from 1 on, that no record has. `taken` are the numbers of
    /// the records that there are.
    pub fn next_free_record_id(taken: &[u32]) -> (r: u32)
        requires
            exists|id: u32| id >= 1 && !taken@.contains(id),
        ensures
            r >= 1,
            !taken@.contains(r),
            forall|id: u32| 1 <= id < r ==> taken@.contains(id),
    {
        let mut record_id: u32 = 1;
        while is_taken(taken, record_id)
            invariant
                record_id >= 1,
                exists|id: u32| id >= record_id && !taken@.contains(id),
                forall|id: u32| 1 <= id < record_id ==> taken@.contains(id),
            decreases u32::MAX - record_id,
        {
            proof {
                let id = choose|id: u32| id >= record_id && !taken@.contains(id);
                assert(id != record_id);
            }
            record_id += 1;
        }
        record_id
    }

    /// The numbers of the records among the entries of the database's directory.
    pub fn get_record_ids(entries: &[DirectoryEntry]) -> (r: Vec<u32>)
        ensures
            r@ == record_ids(entries@),
    {
        let mut ids: Vec<u32> = Vec::new();
        assert(ids@ =~= record_ids(entries@.take(0)));
        for index in 0..entries.len()
            invariant
                ids@ == record_ids(entries@.take(index as int)),
        {
            proof {
                let next = entries@.take(index + 1);
                assert(next.drop_last() =~= entries@.take(index as int));
                assert(next.last() == entries@[index as int]);
            }
            if entries[index].is_file {
                if let Some(id) = parse_number(entries[index].name.as_str(), u32::MAX) {
                    ids.push(id);
                }
            }
        }
        assert(entries@.take(entries@.len() as int) =~= entries@);
        ids
    }

    /// The numbers that are taken by entries of the database's directory: those
    /// whose file would have the name of the entry.
    pub fn taken_record_ids(entries: &[DirectoryEntry]) -> (r: Vec<u32>)
        ensures
            forall|id: u32| #[trigger]
                r@.contains(id) <==> exists|i: int|
                    0 <= i < entries@.len() && (#[trigger] entries@[i]).name@ == decimal(id as nat),
    {
        let mut ids: Vec<u32> = Vec::new();
        for index in 0..entries.len()
            invariant
                forall|id: u32| #[trigger]
                    ids@.contains(id) <==> exists|i: int|
                        0 <= i < index && (#[trigger] entries@[i]).name@ == decimal(id as nat),
        {
            let ghost before = ids@;
            let name = entries[index].name.as_str();
            let found = parse_number(name, u32::MAX);
            let mut canonical = false;
            if let Some(id) = found {
                let written = decimal_text(id);
                canonical = same_text(written.as_str(), name);
                if canonical {
                    proof {
                        lemma_push_contains(before, id);
                    }
                    ids.push(id);
                }
            }
            proof {
                assert forall|id: u32| #[trigger] ids@.contains(id) <==> exists|i: int|
                    0 <= i < index + 1 && (#[trigger] entries@[i]).name@ == decimal(
                        id as nat,
                    ) by {
                    if entries@[index as int].name@ == decimal(id as nat) {
                        lemma_decimal_reads_back(id as nat);
                        assert(found == Some(id));
                        assert(canonical);
                    }
                    if before.contains(id) {
                        let i = choose|i: int|
                            0 <= i < index && (#[trigger] entries@[i]).name@ == decimal(id as nat);
                        assert(entries@[i].name@ == decimal(id as nat));
                    }
                }
            }
        }
        ids
    }
}

fn is_taken(taken: &[u32], id: u32) -> (r: bool)
    ensures
        r == taken@.contains(id),
{
    for index in 0..taken.len()
        invariant
            forall|i: int| 0 <= i < index ==> taken@[i] != id,
    {
        if taken[index] == id {
            return true;
        }
    }
    false
}

/// The numbers of the records among the entries of a directory.
pub open spec fn record_ids(entries: Seq<DirectoryEntry>) -> Seq<u32>
    decreases entries.len(),
{
    if entries.len() == 0 {
        Seq::empty()
    } else {
        let before = record_ids(entries.drop_last());
        let entry = entries.last();
        match number_of(entry.name@, u32::MAX as nat) {
            Some(id) => if entry.is_file {
                before.push(id as u32)
            } else {
                before
            },
            None => before,
        }
    }
}

/// No two records have the same file.
pub proof fn lemma_records_have_their_own_files(a: u32, b: u32)
    requires
        decimal(a as nat) == decimal(b as nat),
    ensures
        a == b,
{
    lemma_decimal_reads_back(a as nat);
    lemma_decimal_reads_back(b as nat);
}

/// A record whose file is in the database's directory is among its records.
pub proof fn lemma_record_is_listed(entries: Seq<DirectoryEntry>, at: int, id: u32)
    requires
        0 <= at < entries.len(),
        entries[at].is_file,
        entries[at].name@ == decimal(id as nat),
    ensures
        record_ids(entries).contains(id),
    decreases entries.len(),
{
    let before = record_ids(entries.drop_last());
    lemma_decimal_reads_back(id as nat);
    if at == entries.len() - 1 {
        assert(number_of(entries[at].name@, u32::MAX as nat) == Some(id as nat));
        lemma_push_contains(before, id);
    } else {
        lemma_record_is_listed(entries.drop_last(), at, id);
        match number_of(entries.last().name@, u32::MAX as nat) {
            Some(other) => {
                lemma_push_contains(before, other as u32);
            },
            None => {},
        }
    }
}

// ---------------------------------------------------------------------------
// Files

/// What a segment of a path adds to it.
pub open spec fn plain_part(segment: Seq<char>) -> Seq<Seq<char>> {
    if segment.len() == 0 || segment == "."@ {
        Seq::empty()
    } else {
        seq![segment]
    }
}

/// The segments of a path from `from` on that lead somewhere, `..` among them.
pub open spec fn plain_parts(path: Seq<char>, from: int) -> Seq<Seq<char>>
    decreases path.len() - from,
{
    if from < 0 || from > path.len() {
        Seq::empty()
    } else {
        let end = from + find_char(path.skip(from), '/', 0);
        let head = plain_part(path.subrange(from, end));
        if end >= path.len() || end < from {
            head
        } else {
            head + plain_parts(path, end + 1)
        }
    }
}

/// The segments of a path that lead somewhere, `..` among them.
pub fn split_path(path: &str) -> (r: Vec<String>)
    ensures
        texts(r@) == plain_parts(path@, 0),
{
    let mut parts: Vec<String> = Vec::new();
    let chars = chars_of(path);
    let count = chars.len();
    let ghost whole = path@;
    let mut from: usize = 0;
    let mut last = false;
    assert(texts(parts@) =~= Seq::<Seq<char>>::empty());
    assert(texts(parts@) + plain_parts(whole, 0) =~= plain_parts(whole, 0));
    while !last
        invariant
            chars@ == whole,
            count == whole.len(),
            from <= count,
            texts(parts@) + (if last {
                Seq::<Seq<char>>::empty()
            } else {
                plain_parts(whole, from as int)
            }) == plain_parts(whole, 0),
        decreases count - from, if last { 0int } else { 1int },
    {
        let end = find_in(chars.as_slice(), '/', from, count);
        assert(whole.skip(from as int) =~= whole.subrange(from as int, count as int));
        let segment = text_of(chars.as_slice(), from, end);
        let ghost before = texts(parts@);
        let ghost rest = if end >= count {
            Seq::<Seq<char>>::empty()
        } else {
            plain_parts(whole, end + 1)
        };
        assert(plain_parts(whole, from as int) =~= plain_part(segment@) + rest);
        if end > from && !same_text(segment.as_str(), ".") {
            proof {
                lemma_texts_push(parts@, segment);
            }
            parts.push(segment);
        }
        assert(texts(parts@) =~= before + plain_part(segment@));
        assert(texts(parts@) + rest =~= before + (plain_part(segment@) + rest));
        if end < count {
            from = end + 1;
        } else {
            last = true;
        }
    }
    assert(texts(parts@) =~= plain_parts(whole, 0));
    parts
}

/// The path of a guest's file below the base directory, if it may be used: it must
/// be relative, lead somewhere, and not lead up, and the application's name must
/// be fit.
pub open spec fn file_path(aid: Seq<char>, path: Seq<char>) -> Option<Seq<Seq<char>>> {
    let parts = plain_parts(path, 0);
    if is_unfit(sanitized(aid)) || (path.len() > 0 && path[0] == '/') || parts.contains(".."@)
        || parts.len() == 0 {
        None
    } else {
        Some(seq![sanitized(aid), "fs"@] + parts)
    }
}

/// A read at `offset` of a file of `size` bytes, where `count` are asked for and `room`
/// fit, gives `r` bytes.
pub open spec fn is_read_len(size: usize, offset: usize, count: usize, room: usize, r: usize) -> bool {
    &&& r <= count
    &&& r <= room
    &&& offset >= size ==> r == 0
    &&& offset < size ==> r <= size - offset && (r == count || r == room || r == size - offset)
}

/// The size that a file must be given before a write at `offset`.
pub open spec fn grown(size: usize, offset: usize) -> Option<usize> {
    if offset > size {
        Some(offset)
    } else {
        None
    }
}

/// The files of all applications.
pub struct LibretroFilesystem {
    base_path: String,
}

impl LibretroFilesystem {
    /// The directory that all is kept in.
    pub closed spec fn base(&self) -> Seq<char> {
        self.base_path@
    }

    pub fn new(base_path: String) -> (r: Self)
        ensures
            r.base() == base_path@,
    {
        LibretroFilesystem { base_path }
    }

    /// Where a guest's file is, if its path may be used.
    pub fn path_for(&self, aid: &str, path: &str) -> (r: Option<DiskPath>)
        ensures
            (match r {
                Some(disk) => disk.base@ == self.base() && file_path(aid@, path@) == Some(
                    disk.names(),
                ),
                None => file_path(aid@, path@) is None,
            }),
    {
        let sanitized_aid = sanitize(aid);
        if unfit(sanitized_aid.as_str()) {
            return None;
        }
        let chars = chars_of(path);
        if chars.len() > 0 && chars[0] == '/' {
            return None;
        }
        let segments = split_path(path);
        let ghost all = plain_parts(path@, 0);
        if segments.len() == 0 {
            return None;
        }
        let mut parts: Vec<String> = Vec::new();
        parts.push(sanitized_aid);
        parts.push("fs".to_owned());
        let ghost front = seq![sanitized(aid@), "fs"@];
        assert(texts(parts@) =~= front + all.take(0));
        for segment in it: segments
            invariant
                texts(it.seq()) == all,
                all == plain_parts(path@, 0),
                front == seq![sanitized(aid@), "fs"@],
                texts(parts@) == front + all.take(it.index() as int),
                forall|i: int| 0 <= i < it.index() ==> #[trigger] all[i] != ".."@,
        {
            assert(all[it.index() as int] == segment@);
            if same_text(segment.as_str(), "..") {
                assert(all.contains(".."@));
                return None;
            }
            proof {
                lemma_texts_push(parts@, segment);
                assert(front + all.take(it.index() + 1) =~= (front + all.take(
                    it.index() as int,
                )).push(segment@));
            }
            parts.push(segment);
        }
        assert(all.take(all.len() as int) =~= all);
        Some(DiskPath { base: self.base_path.as_str().to_owned(), parts })
    }

    /// How many bytes a read at `offset` gives of a file of `size` bytes, where
    /// `count` are asked for and `room` fit.
    pub fn read_len(size: usize, offset: usize, count: usize, room: usize) -> (r: usize)
        ensures
            is_read_len(size, offset, count, room, r),
    {
        if offset >= size {
            return 0;
        }
        let mut to_read = count;
        if size - offset < to_read {
            to_read = size - offset;
        }
        if room < to_read {
            to_read = room;
        }
        to_read
    }

    /// The size that a file of `size` bytes must be given before a write at
    /// `offset`. A file that reaches that far stays as it is.
    pub fn extended_len(size: usize, offset: usize) -> (r: Option<usize>)
        ensures
            r == grown(size, offset),
    {
        if offset > size {
            Some(offset)
        } else {
            None
        }
    }
}

// ---------------------------------------------------------------------------
// No path leads out

proof fn lemma_segment_is_flat(path: Seq<char>, from: int)
    requires
        0 <= from <= path.len(),
    ensures
        ({
            let end = from + find_char(path.skip(from), '/', 0);
            &&& from <= end <= path.len()
            &&& !path.subrange(from, end).contains('/')
        }),
{
    let rest = path.skip(from);
    lemma_find_char(rest, '/', 0);
    let end = from + find_char(rest, '/', 0);
    let segment = path.subrange(from, end);
    if segment.contains('/') {
        let i = choose|i: int| 0 <= i < segment.len() && segment[i] == '/';
        assert(rest[i] == '/');
    }
}

proof fn lemma_database_parts(name: Seq<char>, from: int)
    ensures
        forall|i: int|
            0 <= i < database_parts(name, from).len() ==> is_plain(
                #[trigger] database_parts(name, from)[i],
            ),
    decreases name.len() - from,
{
    if 0 <= from <= name.len() {
        let end = from + find_char(name.skip(from), '/', 0);
        lemma_segment_is_flat(name, from);
        let head = database_part(name.subrange(from, end));
        let whole = database_parts(name, from);
        reveal_strlit("_");
        reveal_strlit(".");
        reveal_strlit("..");
        assert("_"@[0] == '_');
        assert("."@[0] == '.');
        assert(!"_"@.contains('/'));
        assert forall|i: int| 0 <= i < head.len() implies is_plain(#[trigger] head[i]) by {}
        if end < name.len() {
            let tail = database_parts(name, end + 1);
            lemma_database_parts(name, end + 1);
            assert forall|i: int| 0 <= i < whole.len() implies is_plain(#[trigger] whole[i]) by {
                if i < head.len() {
                    assert(whole[i] == head[i]);
                } else {
                    assert(whole[i] == tail[i - head.len()]);
                }
            }
        }
    }
}

proof fn lemma_scope_is_plain(name: Seq<char>)
    requires
        !is_unfit(sanitized(name)),
    ensures
        is_plain(sanitized(name)),
{
    lemma_sanitized(name);
    let scope = sanitized(name);
    if scope.contains('/') {
        let i = choose|i: int| 0 <= i < scope.len() && scope[i] == '/';
        assert(allowed(scope[i]));
    }
}

/// The path of a database stays in the directory of its application: whatever its
/// name and the application's are, every part of the path is the name of one
/// directory.
pub proof fn lemma_database_path_stays(name: Seq<char>, app_id: Seq<char>)
    ensures
        database_path(name, app_id).len() >= 3,
        database_path(name, app_id)[0] == database_scope(app_id),
        database_path(name, app_id)[1] == "db"@,
        forall|i: int|
            0 <= i < database_path(name, app_id).len() ==> is_plain(
                #[trigger] database_path(name, app_id)[i],
            ),
{
    let path = database_path(name, app_id);
    let parts = database_parts(masked(name), 0);
    lemma_database_parts(masked(name), 0);
    reveal_strlit("_");
    reveal_strlit("db");
    reveal_strlit(".");
    reveal_strlit("..");
    assert("_"@[0] == '_');
    assert("."@[0] == '.');
    assert("db"@[0] == 'd');
    assert("db"@[1] == 'b');
    assert(".."@[0] == '.');
    if !is_unfit(sanitized(app_id)) {
        lemma_scope_is_plain(app_id);
    }
    assert forall|i: int| 0 <= i < path.len() implies is_plain(#[trigger] path[i]) by {
        if i >= 2 && parts.len() > 0 {
            assert(path[i] == parts[i - 2]);
        }
    }
}

proof fn lemma_plain_parts(path: Seq<char>, from: int)
    ensures
        forall|i: int|
            0 <= i < plain_parts(path, from).len() ==> {
                let part = #[trigger] plain_parts(path, from)[i];
                part == ".."@ || is_plain(part)
            },
    decreases path.len() - from,
{
    if 0 <= from <= path.len() {
        let end = from + find_char(path.skip(from), '/', 0);
        lemma_segment_is_flat(path, from);
        let head = plain_part(path.subrange(from, end));
        let whole = plain_parts(path, from);
        if end < path.len() {
            let tail = plain_parts(path, end + 1);
            lemma_plain_parts(path, end + 1);
            assert forall|i: int| 0 <= i < whole.len() implies {
                let part = #[trigger] whole[i];
                part == ".."@ || is_plain(part)
            } by {
                if i < head.len() {
                    assert(whole[i] == head[i]);
                } else {
                    assert(whole[i] == tail[i - head.len()]);
                }
            }
        }
    }
}

/// A guest's file stays in the directory of its application: whatever the path is,
/// every part of where it leads is the name of one file or directory.
pub proof fn lemma_file_path_stays(aid: Seq<char>, path: Seq<char>)
    ensures
        file_path(aid, path) matches Some(parts) ==> {
            &&& parts.len() >= 3
            &&& parts[0] == sanitized(aid)
            &&& parts[1] == "fs"@
            &&& forall|i: int| 0 <= i < parts.len() ==> is_plain(#[trigger] parts[i])
        },
{
    if let Some(parts) = file_path(aid, path) {
        let rest = plain_parts(path, 0);
        lemma_plain_parts(path, 0);
        lemma_scope_is_plain(aid);
        reveal_strlit("fs");
        reveal_strlit(".");
        reveal_strlit("..");
        assert("fs"@[0] == 'f');
        assert("fs"@[1] == 's');
        assert("."@[0] == '.');
        assert(".."@[0] == '.');
        assert forall|i: int| 0 <= i < parts.len() implies is_plain(#[trigger] parts[i]) by {
            if i >= 2 {
                assert(parts[i] == rest[i - 2]);
                assert(rest.contains(rest[i - 2]));
            }
        }
    }
}

// ---------------------------------------------------------------------------
// Paths lead where they say

proof fn lemma_path_shift(s: Seq<char>, t: Seq<char>, at: int, bt: int)
    requires
        0 <= at <= s.len(),
        0 <= bt <= t.len(),
        s.skip(at) == t.skip(bt),
    ensures
        plain_parts(s, at) == plain_parts(t, bt),
    decreases s.len() - at,
{
    let rest = s.skip(at);
    assert(rest.len() == s.len() - at && t.skip(bt).len() == t.len() - bt);
    lemma_find_char(rest, '/', 0);
    let n = find_char(rest, '/', 0);
    assert(s.subrange(at, at + n) =~= rest.take(n));
    assert(t.subrange(bt, bt + n) =~= rest.take(n));
    if n < rest.len() {
        assert(s.skip(at + n + 1) =~= rest.skip(n + 1));
        assert(t.skip(bt + n + 1) =~= t.skip(bt).skip(n + 1));
        lemma_path_shift(s, t, at + n + 1, bt + n + 1);
    }
}

/// A path is the parts between its slashes in their order, without those that are empty
/// or stand for where they are.
pub proof fn lemma_path_parts_are_joined(first: Seq<char>, rest: Seq<char>)
    requires
        !first.contains('/'),
    ensures
        plain_parts(first.push('/') + rest, 0) == plain_parts(first, 0) + plain_parts(rest, 0),
        first.len() == 0 || first == "."@ ==> plain_parts(first, 0).len() == 0,
        is_plain(first) ==> plain_parts(first, 0) == seq![first],
        first == ".."@ ==> plain_parts(first, 0) == seq![".."@],
{
    reveal_strlit(".");
    reveal_strlit("..");
    let whole = first.push('/') + rest;
    let n = first.len() as int;
    assert forall|i: int| 0 <= i < n implies first[i] != '/' by {
        assert(first.contains(first[i]));
    }
    assert(first.skip(0) =~= first);
    assert(whole.skip(0) =~= whole);
    lemma_find_char(first, '/', 0);
    lemma_find_char(whole, '/', 0);
    let at = find_char(whole, '/', 0);
    assert(whole[n] == '/');
    if at < n {
        assert(whole[at] == first[at]);
    }
    assert(at == n);
    let end = find_char(first, '/', 0);
    if end < n {
        assert(first[end] != '/');
    }
    assert(first.subrange(0, n) =~= first);
    assert(whole.subrange(0, n) =~= first);
    assert(whole.skip(n + 1) =~= rest.skip(0));
    lemma_path_shift(whole, rest, n + 1, 0);
}

proof fn lemma_database_shift(s: Seq<char>, t: Seq<char>, at: int, bt: int)
    requires
        0 <= at <= s.len(),
        0 <= bt <= t.len(),
        s.skip(at) == t.skip(bt),
    ensures
        database_parts(s, at) == database_parts(t, bt),
    decreases s.len() - at,
{
    let rest = s.skip(at);
    assert(rest.len() == s.len() - at && t.skip(bt).len() == t.len() - bt);
    lemma_find_char(rest, '/', 0);
    let n = find_char(rest, '/', 0);
    assert(s.subrange(at, at + n) =~= rest.take(n));
    assert(t.subrange(bt, bt + n) =~= rest.take(n));
    if n < rest.len() {
        assert(s.skip(at + n + 1) =~= rest.skip(n + 1));
        assert(t.skip(bt + n + 1) =~= t.skip(bt).skip(n + 1));
        lemma_database_shift(s, t, at + n + 1, bt + n + 1);
    }
}

/// The name of a database is the parts between its slashes in their order, without those
/// that are empty or stand for where they are; one that leads up is replaced.
pub proof fn lemma_database_parts_are_joined(first: Seq<char>, rest: Seq<char>)
    requires
        !first.contains('/'),
    ensures
        database_parts(first.push('/') + rest, 0) == database_parts(first, 0) + database_parts(rest, 0),
        first.len() == 0 || first == "."@ ==> database_parts(first, 0).len() == 0,
        is_plain(first) ==> database_parts(first, 0) == seq![first],
        first == ".."@ ==> database_parts(first, 0) == seq!["_"@],
{
    reveal_strlit(".");
    reveal_strlit("..");
    let whole = first.push('/') + rest;
    let n = first.len() as int;
    assert forall|i: int| 0 <= i < n implies first[i] != '/' by {
        assert(first.contains(first[i]));
    }
    assert(first.skip(0) =~= first);
    assert(whole.skip(0) =~= whole);
    lemma_find_char(first, '/', 0);
    lemma_find_char(whole, '/', 0);
    let at = find_char(whole, '/', 0);
    assert(whole[n] == '/');
    if at < n {
        assert(whole[at] == first[at]);
    }
    assert(at == n);
    let end = find_char(first, '/', 0);
    if end < n {
        assert(first[end] != '/');
    }
    assert(first.subrange(0, n) =~= first);
    assert(whole.subrange(0, n) =~= first);
    assert(whole.skip(n + 1) =~= rest.skip(0));
    lemma_database_shift(whole, rest, n + 1, 0);
}

/// A name loses the characters that could mislead and keeps all others in order.
pub proof fn lemma_sanitized_keeps_the_rest(name: Seq<char>, c: char)
    ensures
        c == '/' || c == '\\' || c == '\0' ==> sanitized(name.push(c)) == sanitized(name),
        c != '/' && c != '\\' && c != '\0' ==> sanitized(name.push(c)) == sanitized(name).push(c),
        sanitized(Seq::empty()).len() == 0,
{
    lemma_filter_push(name, c);
    reveal(Seq::filter);
}

/// A guest's file of a plain name is found under that name, and one in a directory of
/// the guest in that directory.
pub proof fn lemma_plain_file_is_found(aid: Seq<char>, directory: Seq<char>, name: Seq<char>)
    requires
        !is_unfit(sanitized(aid)),
        is_plain(directory),
        is_plain(name),
    ensures
        file_path(aid, name) == Some(seq![sanitized(aid), "fs"@, name]),
        file_path(aid, directory.push('/') + name) == Some(
            seq![sanitized(aid), "fs"@, directory, name],
        ),
{
    reveal_strlit("..");
    lemma_path_parts_are_joined(directory, name);
    lemma_path_parts_are_joined(name, name);
    assert(directory.contains(directory[0]));
    assert(name.contains(name[0]));
    let path = directory.push('/') + name;
    assert(path[0] == directory[0]);
    let one = plain_parts(name, 0);
    let two = plain_parts(path, 0);
    assert(two =~= seq![directory, name]);
    if one.contains(".."@) {
        let i = choose|i: int| 0 <= i < one.len() && one[i] == ".."@;
        assert(one[i] == name);
    }
    if two.contains(".."@) {
        let i = choose|i: int| 0 <= i < two.len() && two[i] == ".."@;
        assert(two[i] == directory || two[i] == name);
    }
    assert(seq![sanitized(aid), "fs"@] + one =~= seq![sanitized(aid), "fs"@, name]);
    assert(seq![sanitized(aid), "fs"@] + two =~= seq![sanitized(aid), "fs"@, directory, name]);
}

/// A path that is absolute, leads up or leads nowhere is refused.
pub proof fn lemma_other_paths_are_refused(aid: Seq<char>, path: Seq<char>, i: int)
    ensures
        path.len() == 0 ==> file_path(aid, path) is None,
        path.len() > 0 && path[0] == '/' ==> file_path(aid, path) is None,
        0 <= i < plain_parts(path, 0).len() && plain_parts(path, 0)[i] == ".."@ ==> file_path(
            aid,
            path,
        ) is None,
        is_unfit(sanitized(aid)) ==> file_path(aid, path) is None,
{
    if path.len() == 0 {
        lemma_path_parts_are_joined(path, path);
    }
    if 0 <= i < plain_parts(path, 0).len() {
        assert(plain_parts(path, 0).contains(plain_parts(path, 0)[i]));
    }
}

/// A database of a plain name is kept under that name in the directory of its
/// application.
pub proof fn lemma_plain_database_is_found(app_id: Seq<char>, name: Seq<char>)
    requires
        !is_unfit(sanitized(app_id)),
        is_plain(name),
        !name.contains('\\'),
        !name.contains('\0'),
    ensures
        database_path(name, app_id) == seq![sanitized(app_id), "db"@, name],
{
    lemma_database_parts_are_joined(name, name);
    assert forall|i: int| 0 <= i < name.len() implies masked(name)[i] == name[i] by {
        assert(name.contains(name[i]));
    }
    assert(masked(name) =~= name);
    assert(seq![sanitized(app_id), "db"@] + seq![name] =~= seq![sanitized(app_id), "db"@, name]);
}

/// Only files with a number for their name are records, each with its number.
pub proof fn lemma_records_are_numbered_files(entries: Seq<DirectoryEntry>, entry: DirectoryEntry)
    ensures
        !entry.is_file ==> record_ids(entries.push(entry)) == record_ids(entries),
        entry.is_file && number_of(entry.name@, u32::MAX as nat) is None ==> record_ids(
            entries.push(entry),
        ) == record_ids(entries),
        forall|id: u32|
            entry.is_file && entry.name@ == #[trigger] decimal(id as nat) ==> record_ids(
                entries.push(entry),
            ) == record_ids(entries).push(id),
        record_ids(Seq::empty()).len() == 0,
{
    assert(entries.push(entry).drop_last() =~= entries);
    assert forall|id: u32|
        entry.is_file && entry.name@ == #[trigger] decimal(id as nat) implies record_ids(
        entries.push(entry),
    ) == record_ids(entries).push(id) by {
        lemma_decimal_reads_back(id as nat);
        assert(number_of(decimal(id as nat), u32::MAX as nat) == Some(id as nat));
    }
}

/// A read gives as many bytes as were asked for, as fit and as there are: the fewest of
/// the three.
pub proof fn lemma_read_gives_what_there_is(size: usize, offset: usize, count: usize, room: usize, r: usize)
    requires
        is_read_len(size, offset, count, room, r),
    ensures
        r <= count,
        r <= room,
        r == count || r == room || offset + r == size || offset >= size,
        offset < size ==> offset + r <= size,
        offset >= size ==> r == 0,
        offset + count <= size && count <= room ==> r == count,
{
}

/// A file grows to where a write begins, and never shrinks for one.
pub proof fn lemma_file_grows_to_the_write(size: usize, offset: usize)
    ensures
        grown(size, offset) matches Some(len) ==> len == offset && len > size,
        grown(size, offset) is None <==> offset <= size,
{
}

} // verus!
