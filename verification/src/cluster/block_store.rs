//! The index of a store of immutable blocks: which there are, and how much room they take.

use crate::cluster::hash_exchange::{checksum, crc32};
use crate::error::{outcome, ErrorView, SparkXError};
use crate::text::{characters, join, push_char, same_text};
use vstd::prelude::*;
use vstd::utf8::encode_utf8;

verus! {

/// A block under its ticket. What its content is, is the caller's matter.
#[derive(Debug)]
pub struct BlockEntry<T> {
    pub ticket: String,
    pub checksum: String,
    pub charged_bytes: u64,
    pub content: T,
}

pub struct BlockEntryView<T> {
    pub ticket: Seq<char>,
    pub checksum: Seq<char>,
    pub charged_bytes: u64,
    pub content: T,
}

impl<T> View for BlockEntry<T> {
    type V = BlockEntryView<T>;

    open spec fn view(&self) -> BlockEntryView<T> {
        BlockEntryView {
            ticket: self.ticket@,
            checksum: self.checksum@,
            charged_bytes: self.charged_bytes,
            content: self.content,
        }
    }
}

pub open spec fn entry_views<T>(entries: Seq<BlockEntry<T>>) -> Seq<BlockEntryView<T>> {
    Seq::new(entries.len(), |i: int| entries[i]@)
}

/// The index of a store.
#[derive(Debug)]
pub struct BlockStore<T> {
    capacity: u64,
    used: u64,
    blocks: Vec<BlockEntry<T>>,
}

pub struct BlockStoreView<T> {
    pub capacity: u64,
    pub used: u64,
    pub blocks: Seq<BlockEntryView<T>>,
}

impl<T> View for BlockStore<T> {
    type V = BlockStoreView<T>;

    closed spec fn view(&self) -> BlockStoreView<T> {
        BlockStoreView {
            capacity: self.capacity,
            used: self.used,
            blocks: entry_views(self.blocks@),
        }
    }
}

/// What the first `upto` blocks are charged.
pub open spec fn charged<T>(blocks: Seq<BlockEntryView<T>>, upto: int) -> nat
    decreases upto,
{
    if upto <= 0 {
        0
    } else {
        charged(blocks, upto - 1) + blocks[upto - 1].charged_bytes as nat
    }
}

/// The place of a ticket's block from `from` on, or the number of blocks.
pub open spec fn ticket_place<T>(
    blocks: Seq<BlockEntryView<T>>,
    ticket: Seq<char>,
    from: int,
) -> int
    decreases blocks.len() - from,
{
    if from >= blocks.len() {
        blocks.len() as int
    } else if blocks[from].ticket == ticket {
        from
    } else {
        ticket_place(blocks, ticket, from + 1)
    }
}

pub proof fn ticket_place_is_exact<T>(
    blocks: Seq<BlockEntryView<T>>,
    ticket: Seq<char>,
    from: int,
)
    requires
        0 <= from <= blocks.len(),
    ensures
        from <= ticket_place(blocks, ticket, from) <= blocks.len(),
        ticket_place(blocks, ticket, from) < blocks.len() ==> blocks[ticket_place(
            blocks,
            ticket,
            from,
        )].ticket == ticket,
        forall|i: int|
            from <= i < ticket_place(blocks, ticket, from) ==> (#[trigger] blocks[i]).ticket
                != ticket,
    decreases blocks.len() - from,
{
    if from < blocks.len() && blocks[from].ticket != ticket {
        ticket_place_is_exact(blocks, ticket, from + 1);
    }
}

/// The error of a block for which there is no room.
pub open spec fn full_failure() -> ErrorView {
    ErrorView::ResourceExhausted("data-plane storage capacity exceeded"@)
}

/// The error of a ticket without a block.
pub open spec fn missing_failure() -> ErrorView {
    ErrorView::NotFound("data-plane block does not exist"@)
}

/// Whether two checksums are the same, or the error that they are not.
pub open spec fn checksum_check(left: Seq<char>, right: Seq<char>) -> Result<(), ErrorView> {
    if left == right {
        Ok(())
    } else {
        Err(ErrorView::Protocol("immutable block checksum mismatch"@))
    }
}

impl<T> BlockStoreView<T> {
    /// What holds of every store: it takes no more room than it has, and no ticket twice.
    pub open spec fn wf(self) -> bool {
        &&& self.used == charged(self.blocks, self.blocks.len() as int)
        &&& self.used <= self.capacity
        &&& self.capacity > 0
        &&& forall|i: int, j: int|
            0 <= i < j < self.blocks.len() ==> (#[trigger] self.blocks[i]).ticket != (
            #[trigger] self.blocks[j]).ticket
    }

    pub open spec fn place(self, ticket: Seq<char>) -> int {
        ticket_place(self.blocks, ticket, 0)
    }

    pub open spec fn has(self, ticket: Seq<char>) -> bool {
        self.place(ticket) < self.blocks.len()
    }

    pub open spec fn available(self) -> u64 {
        (self.capacity - self.used) as u64
    }

    /// What keeps a block from being stored, if anything does.
    pub open spec fn insertion_check(self, entry: BlockEntryView<T>) -> Result<(), ErrorView> {
        if self.has(entry.ticket) {
            checksum_check(self.blocks[self.place(entry.ticket)].checksum, entry.checksum)
        } else if entry.charged_bytes > self.available() {
            Err(full_failure())
        } else {
            Ok(())
        }
    }

    /// The store with a block. One that is there already stays as it is.
    pub open spec fn inserted(self, entry: BlockEntryView<T>) -> BlockStoreView<T> {
        if self.has(entry.ticket) {
            self
        } else {
            BlockStoreView {
                capacity: self.capacity,
                used: (self.used + entry.charged_bytes) as u64,
                blocks: self.blocks.push(entry),
            }
        }
    }

    /// The store without a ticket's block.
    pub open spec fn removed(self, ticket: Seq<char>) -> BlockStoreView<T> {
        BlockStoreView {
            capacity: self.capacity,
            used: (self.used - self.blocks[self.place(ticket)].charged_bytes) as u64,
            blocks: self.blocks.remove(self.place(ticket)),
        }
    }
}

proof fn charged_agrees<T>(
    longer: Seq<BlockEntryView<T>>,
    shorter: Seq<BlockEntryView<T>>,
    upto: int,
)
    requires
        0 <= upto <= shorter.len(),
        upto <= longer.len(),
        forall|i: int| 0 <= i < upto ==> #[trigger] longer[i] == shorter[i],
    ensures
        charged(longer, upto) == charged(shorter, upto),
    decreases upto,
{
    if upto > 0 {
        charged_agrees(longer, shorter, upto - 1);
    }
}

proof fn charged_without<T>(blocks: Seq<BlockEntryView<T>>, place: int, upto: int)
    requires
        0 <= place < upto <= blocks.len(),
    ensures
        charged(blocks.remove(place), upto - 1) + blocks[place].charged_bytes == charged(
            blocks,
            upto,
        ),
    decreases upto,
{
    let rest = blocks.remove(place);
    if upto - 1 == place {
        charged_agrees(rest, blocks, place);
    } else {
        charged_without(blocks, place, upto - 1);
        assert(rest[upto - 2] == blocks[upto - 1]);
    }
}

/// Storing a block keeps a store within its room, and its ticket then has the block.
pub proof fn insertion_keeps_validity<T>(store: BlockStoreView<T>, entry: BlockEntryView<T>)
    requires
        store.wf(),
        store.insertion_check(entry) is Ok,
    ensures
        store.inserted(entry).wf(),
        store.inserted(entry).has(entry.ticket),
        store.inserted(entry).blocks[store.inserted(entry).place(entry.ticket)].checksum
            == entry.checksum,
        !store.has(entry.ticket) ==> store.inserted(entry).blocks[store.inserted(entry).place(
            entry.ticket,
        )] == entry,
{
    ticket_place_is_exact(store.blocks, entry.ticket, 0);
    let next = store.inserted(entry);
    ticket_place_is_exact(next.blocks, entry.ticket, 0);
    if !store.has(entry.ticket) {
        charged_agrees(next.blocks, store.blocks, store.blocks.len() as int);
        assert(next.blocks[store.blocks.len() as int] == entry);
        let place = next.place(entry.ticket);
        if place < store.blocks.len() {
            assert(next.blocks[place] == store.blocks[place]);
        }
        assert forall|i: int, j: int| 0 <= i < j < next.blocks.len() implies (
        #[trigger] next.blocks[i]).ticket != (#[trigger] next.blocks[j]).ticket by {
            if j == store.blocks.len() {
                assert(store.blocks[i].ticket != entry.ticket);
            }
        }
    }
}

/// Removing a block frees its room, and its ticket then has none.
pub proof fn removal_keeps_validity<T>(store: BlockStoreView<T>, ticket: Seq<char>)
    requires
        store.wf(),
        store.has(ticket),
    ensures
        store.removed(ticket).wf(),
        !store.removed(ticket).has(ticket),
        store.removed(ticket).available() == store.available() + store.blocks[store.place(
            ticket,
        )].charged_bytes,
{
    let place = store.place(ticket);
    ticket_place_is_exact(store.blocks, ticket, 0);
    charged_without(store.blocks, place, store.blocks.len() as int);
    let next = store.removed(ticket);
    assert forall|i: int, j: int| 0 <= i < j < next.blocks.len() implies (
    #[trigger] next.blocks[i]).ticket != (#[trigger] next.blocks[j]).ticket by {
        let a = if i < place {
            i
        } else {
            i + 1
        };
        let b = if j < place {
            j
        } else {
            j + 1
        };
        assert(next.blocks[i] == store.blocks[a]);
        assert(next.blocks[j] == store.blocks[b]);
    }
    ticket_place_is_exact(next.blocks, ticket, 0);
    if next.has(ticket) {
        let found = next.place(ticket);
        let origin = if found < place {
            found
        } else {
            found + 1
        };
        assert(next.blocks[found] == store.blocks[origin]);
        assert(store.blocks[origin].ticket == store.blocks[place].ticket);
    }
}

/// Storing a block again changes nothing.
pub proof fn storing_again_changes_nothing<T>(store: BlockStoreView<T>, entry: BlockEntryView<T>)
    requires
        store.wf(),
        store.insertion_check(entry) is Ok,
    ensures
        store.inserted(entry).insertion_check(entry) is Ok,
        store.inserted(entry).inserted(entry) == store.inserted(entry),
{
    insertion_keeps_validity(store, entry);
}

fn full() -> (r: SparkXError)
    ensures
        r@ == full_failure(),
{
    SparkXError::resource_exhausted("data-plane storage capacity exceeded".to_owned())
}

fn missing() -> (r: SparkXError)
    ensures
        r@ == missing_failure(),
{
    SparkXError::NotFound("data-plane block does not exist".to_owned())
}

/// Whether two checksums are the same.
pub fn same_checksum(left: &str, right: &str) -> (r: Result<(), SparkXError>)
    ensures
        outcome(r) == checksum_check(left@, right@),
{
    if same_text(left, right) {
        Ok(())
    } else {
        Err(SparkXError::protocol("immutable block checksum mismatch".to_owned()))
    }
}

impl<T> BlockStore<T> {
    pub open spec fn wf(&self) -> bool {
        self@.wf()
    }

    /// An empty store with room for so many bytes.
    pub fn new(capacity: u64) -> (r: Result<Self, SparkXError>)
        ensures
            match r {
                Ok(store) => {
                    &&& capacity > 0
                    &&& store@ == (BlockStoreView {
                        capacity,
                        used: 0,
                        blocks: Seq::<BlockEntryView<T>>::empty(),
                    })
                    &&& store.wf()
                },
                Err(error) => capacity == 0 && error@ == ErrorView::Planning(
                    "data-plane storage capacity must be greater than zero"@,
                ),
            },
    {
        if capacity == 0 {
            return Err(
                SparkXError::planning(
                    "data-plane storage capacity must be greater than zero".to_owned(),
                ),
            );
        }
        let store = BlockStore { capacity, used: 0, blocks: Vec::new() };
        proof {
            assert(store@.blocks =~= Seq::empty());
        }
        Ok(store)
    }

    fn find(&self, ticket: &str) -> (r: usize)
        ensures
            r == self@.place(ticket@),
            r <= self@.blocks.len(),
            self@.blocks.len() == self.blocks.len(),
    {
        let ghost views = entry_views(self.blocks@);
        let mut i: usize = 0;
        while i < self.blocks.len()
            invariant
                views == entry_views(self.blocks@),
                i <= self.blocks.len(),
                ticket_place(views, ticket@, 0) == ticket_place(views, ticket@, i as int),
            decreases self.blocks.len() - i,
        {
            proof {
                assert(views[i as int] == self.blocks@[i as int]@);
            }
            if same_text(self.blocks[i].ticket.as_str(), ticket) {
                return i;
            }
            i = i + 1;
        }
        i
    }

    pub fn available_bytes(&self) -> (r: u64)
        requires
            self.wf(),
        ensures
            r == self@.available(),
    {
        self.capacity - self.used
    }

    /// The room for the block of a ticket, with what such a block takes already.
    pub fn upload_budget(&self, ticket: &str) -> (r: u64)
        requires
            self.wf(),
        ensures
            r == self@.available() + (if self@.has(ticket@) {
                self@.blocks[self@.place(ticket@)].charged_bytes as int
            } else {
                0
            }),
    {
        let place: usize = self.find(ticket);
        let available: u64 = self.capacity - self.used;
        if place < self.blocks.len() {
            proof {
                let views = self@.blocks;
                assert(views[place as int] == self.blocks@[place as int]@);
                charged_without(views, place as int, views.len() as int);
            }
            available + self.blocks[place].charged_bytes
        } else {
            available
        }
    }

    /// Stores a block, where there is room. One that is there already stays as it is, and has to
    /// have the same checksum.
    pub fn insert(&mut self, entry: BlockEntry<T>) -> (r: Result<(), SparkXError>)
        requires
            old(self).wf(),
        ensures
            final(self).wf(),
            outcome(r) == old(self)@.insertion_check(entry@),
            final(self)@ == (if r is Ok {
                old(self)@.inserted(entry@)
            } else {
                old(self)@
            }),
    {
        let place: usize = self.find(entry.ticket.as_str());
        if place < self.blocks.len() {
            proof {
                assert(self@.blocks[place as int] == self.blocks@[place as int]@);
            }
            return same_checksum(
                self.blocks[place].checksum.as_str(),
                entry.checksum.as_str(),
            );
        }
        if entry.charged_bytes > self.capacity - self.used {
            return Err(full());
        }
        proof {
            insertion_keeps_validity(self@, entry@);
        }
        let ghost before = self@.blocks;
        let ghost view = entry@;
        self.used = self.used + entry.charged_bytes;
        self.blocks.push(entry);
        proof {
            assert(self@.blocks =~= before.push(view));
        }
        Ok(())
    }

    /// The block of a ticket.
    pub fn get(&self, ticket: &str) -> (r: Result<&BlockEntry<T>, SparkXError>)
        requires
            self.wf(),
        ensures
            match r {
                Ok(entry) => self@.has(ticket@) && entry@ == self@.blocks[self@.place(ticket@)],
                Err(error) => !self@.has(ticket@) && error@ == missing_failure(),
            },
    {
        let place: usize = self.find(ticket);
        if place < self.blocks.len() {
            proof {
                assert(self@.blocks[place as int] == self.blocks@[place as int]@);
            }
            Ok(&self.blocks[place])
        } else {
            Err(missing())
        }
    }

    /// Takes the block of a ticket out.
    pub fn remove(&mut self, ticket: &str) -> (r: Result<BlockEntry<T>, SparkXError>)
        requires
            old(self).wf(),
        ensures
            final(self).wf(),
            match r {
                Ok(entry) => {
                    &&& old(self)@.has(ticket@)
                    &&& entry@ == old(self)@.blocks[old(self)@.place(ticket@)]
                    &&& final(self)@ == old(self)@.removed(ticket@)
                },
                Err(error) => {
                    &&& !old(self)@.has(ticket@)
                    &&& error@ == missing_failure()
                    &&& final(self)@ == old(self)@
                },
            },
    {
        let place: usize = self.find(ticket);
        if place >= self.blocks.len() {
            return Err(missing());
        }
        let ghost before = self@;
        proof {
            assert(self@.blocks[place as int] == self.blocks@[place as int]@);
            removal_keeps_validity(self@, ticket@);
            charged_without(self@.blocks, place as int, self@.blocks.len() as int);
        }
        let entry = self.blocks.remove(place);
        self.used = self.used - entry.charged_bytes;
        proof {
            assert(self@.blocks =~= before.blocks.remove(place as int));
        }
        Ok(entry)
    }

    /// Takes over a block that was found in the store's directory when it was opened.
    pub fn adopt(&mut self, entry: BlockEntry<T>) -> (r: Result<(), SparkXError>)
        requires
            old(self).wf(),
        ensures
            final(self).wf(),
            match r {
                Ok(()) => {
                    &&& entry.charged_bytes <= old(self)@.available()
                    &&& !old(self)@.has(entry@.ticket)
                    &&& final(self)@ == old(self)@.inserted(entry@)
                },
                Err(error) => {
                    &&& final(self)@ == old(self)@
                    &&& if entry.charged_bytes > old(self)@.available() {
                        error@ == full_failure()
                    } else {
                        old(self)@.has(entry@.ticket) && error@ == ErrorView::Protocol(
                            "duplicate persisted block ticket"@,
                        )
                    }
                },
            },
    {
        if entry.charged_bytes > self.capacity - self.used {
            return Err(full());
        }
        let place: usize = self.find(entry.ticket.as_str());
        if place < self.blocks.len() {
            return Err(SparkXError::protocol("duplicate persisted block ticket".to_owned()));
        }
        self.insert(entry)
    }
}

/// The character of a hexadecimal digit.
pub open spec fn hex_digit(n: nat) -> char {
    if n < 10 {
        ((48 + n) as u8) as char
    } else {
        ((87 + n) as u8) as char
    }
}

/// The hexadecimal numeral of a number with so many digits.
pub open spec fn hex_numeral(n: nat, digits: nat) -> Seq<char>
    decreases digits,
{
    if digits == 0 {
        Seq::empty()
    } else {
        hex_numeral(n / 16, (digits - 1) as nat).push(hex_digit(n % 16))
    }
}

fn hex_text(n: u32, digits: u32) -> (r: String)
    ensures
        r@ == hex_numeral(n as nat, digits as nat),
    decreases digits,
{
    if digits == 0 {
        let r = String::new();
        proof {
            assert(r@ =~= Seq::empty());
        }
        return r;
    }
    let mut r = hex_text(n / 16, digits - 1);
    let digit: u32 = n % 16;
    let c: char = if digit < 10 {
        (48 + digit as u8) as char
    } else {
        (87 + digit as u8) as char
    };
    push_char(&mut r, c);
    r
}

/// The text of the checksum of bytes.
pub open spec fn checksum_text(bytes: Seq<u8>) -> Seq<char> {
    "crc32:"@ + hex_numeral(crc32(bytes) as nat, 8)
}

/// The text of the checksum of what a block is written as.
pub fn block_checksum(bytes: &Vec<u8>) -> (r: String)
    ensures
        r@ == checksum_text(bytes@),
{
    join("crc32:", hex_text(checksum(bytes.as_slice()), 8).as_str())
}

/// What is known of a block beside its rows.
#[derive(Debug)]
pub struct BlockMetadata {
    pub rows: u64,
    pub bytes: u64,
    pub checksum: String,
}

/// The sum of the first `upto` numbers.
pub open spec fn sum_of(numbers: Seq<u64>, upto: int) -> nat
    decreases upto,
{
    if upto <= 0 {
        0
    } else {
        sum_of(numbers, upto - 1) + numbers[upto - 1] as nat
    }
}

/// A sum, where it can be counted, and else the last number that can.
pub open spec fn counted_sum(numbers: Seq<u64>) -> u64 {
    if sum_of(numbers, numbers.len() as int) > u64::MAX {
        u64::MAX
    } else {
        sum_of(numbers, numbers.len() as int) as u64
    }
}

fn sum_up(numbers: &Vec<u64>) -> (r: u64)
    ensures
        r == counted_sum(numbers@),
{
    let mut total: u64 = 0;
    for i in 0..numbers.len()
        invariant
            total == (if sum_of(numbers@, i as int) > u64::MAX {
                u64::MAX as nat
            } else {
                sum_of(numbers@, i as int)
            }),
    {
        total = match total.checked_add(numbers[i]) {
            Some(next) => next,
            None => u64::MAX,
        };
    }
    total
}

/// What is known of a block whose batches have so many rows and bytes, and which is written as a
/// stream of bytes.
pub fn block_metadata(rows: &Vec<u64>, sizes: &Vec<u64>, stream: &Vec<u8>) -> (r: BlockMetadata)
    ensures
        r.rows == counted_sum(rows@),
        r.bytes == counted_sum(sizes@),
        r.checksum@ == checksum_text(stream@),
{
    BlockMetadata { rows: sum_up(rows), bytes: sum_up(sizes), checksum: block_checksum(stream) }
}

/// The name, without its ending, of the file with a ticket's block.
pub open spec fn file_stem(ticket: Seq<char>) -> Seq<char> {
    "sparkx-"@ + hex_numeral(crc32(encode_utf8(ticket)) as nat, 8)
}

/// The name of the file with a ticket's block, and the one that it has while it is written.
pub fn block_file_names(ticket: &str) -> (r: (String, String))
    ensures
        r.0@ == file_stem(ticket@) + ".block"@,
        r.1@ == file_stem(ticket@) + ".pending"@,
{
    let stem = join("sparkx-", hex_text(checksum(ticket.as_bytes()), 8).as_str());
    (join(stem.as_str(), ".block"), join(stem.as_str(), ".pending"))
}

/// What is done with a file in the directory of a store.
#[derive(Debug, Clone, Copy, PartialEq, Eq, Structural)]
pub enum FileRole {
    /// It is none of the store's.
    Foreign,
    /// It was not finished and is deleted.
    Unfinished,
    Block,
}

pub open spec fn starts_with(text: Seq<char>, prefix: Seq<char>) -> bool {
    prefix.len() <= text.len() && text.take(prefix.len() as int) == prefix
}

pub open spec fn ends_with(text: Seq<char>, suffix: Seq<char>) -> bool {
    suffix.len() <= text.len() && text.skip(text.len() - suffix.len()) == suffix
}

/// What is done with a file of a name.
pub open spec fn role_of(name: Seq<char>) -> FileRole {
    if !starts_with(name, "sparkx-"@) {
        FileRole::Foreign
    } else if ends_with(name, ".pending"@) {
        FileRole::Unfinished
    } else if ends_with(name, ".block"@) {
        FileRole::Block
    } else {
        FileRole::Foreign
    }
}

fn matches_at(text: &Vec<char>, part: &Vec<char>, from: usize) -> (r: bool)
    requires
        from + part.len() <= text.len(),
    ensures
        r == (text@.subrange(from as int, from + part.len()) == part@),
{
    let ghost window = text@.subrange(from as int, from + part.len());
    for i in 0..part.len()
        invariant
            from + part.len() <= text.len(),
            window == text@.subrange(from as int, from + part.len()),
            forall|k: int| 0 <= k < i ==> #[trigger] window[k] == part@[k],
    {
        proof {
            assert(window[i as int] == text@[from + i]);
        }
        if text[from + i] != part[i] {
            return false;
        }
    }
    proof {
        assert(window =~= part@);
    }
    true
}

fn has_ending(name: &Vec<char>, ending: &str) -> (r: bool)
    ensures
        r == ends_with(name@, ending@),
{
    let part = characters(ending);
    if part.len() > name.len() {
        return false;
    }
    proof {
        assert(name@.skip(name.len() - part.len()) =~= name@.subrange(
            name.len() - part.len(),
            name.len() as int,
        ));
    }
    matches_at(name, &part, name.len() - part.len())
}

pub(crate) fn has_prefix(text: &Vec<char>, prefix: &str) -> (r: bool)
    ensures
        r == starts_with(text@, prefix@),
{
    let part = characters(prefix);
    if part.len() > text.len() {
        return false;
    }
    proof {
        assert(text@.take(part.len() as int) =~= text@.subrange(0, part.len() as int));
    }
    matches_at(text, &part, 0)
}

/// What is done with a file in the directory of a store.
pub fn classify_file(name: &str) -> (r: FileRole)
    ensures
        r == role_of(name@),
{
    let chars = characters(name);
    if !has_prefix(&chars, "sparkx-") {
        return FileRole::Foreign;
    }
    if has_ending(&chars, ".pending") {
        FileRole::Unfinished
    } else if has_ending(&chars, ".block") {
        FileRole::Block
    } else {
        FileRole::Foreign
    }
}

/// The most bytes of the header of a persisted block.
pub const MAX_HEADER_BYTES: u32 = 4096;

/// The length of a header as it stands before it, with the lowest byte first.
pub open spec fn stored_length(bytes: Seq<u8>) -> int {
    bytes[0] as int + bytes[1] as int * 0x100 + bytes[2] as int * 0x1_0000 + bytes[3] as int
        * 0x100_0000
}

/// The length of the header of a persisted block.
fn header_length(bytes: &Vec<u8>) -> (r: Result<usize, SparkXError>)
    requires
        bytes.len() == 4,
    ensures
        match r {
            Ok(length) => length == stored_length(bytes@) && length <= MAX_HEADER_BYTES,
            Err(error) => stored_length(bytes@) > MAX_HEADER_BYTES && error@
                == ErrorView::Protocol("invalid persisted block header length"@),
        },
{
    let length: u64 = bytes[0] as u64 + bytes[1] as u64 * 0x100 + bytes[2] as u64 * 0x1_0000
        + bytes[3] as u64 * 0x100_0000;
    if length > MAX_HEADER_BYTES as u64 {
        return Err(SparkXError::protocol("invalid persisted block header length".to_owned()));
    }
    Ok(length as usize)
}

/// The length of a header as bytes, with the lowest first.
fn length_bytes(length: u32) -> (r: Vec<u8>)
    ensures
        r.len() == 4,
        stored_length(r@) == length,
{
    let r: Vec<u8> = vec![
        (length % 0x100) as u8,
        (length / 0x100 % 0x100) as u8,
        (length / 0x1_0000 % 0x100) as u8,
        (length / 0x100_0000) as u8,
    ];
    proof {
        let n = length as int;
        assert(n == n % 0x100 + n / 0x100 % 0x100 * 0x100 + n / 0x1_0000 % 0x100 * 0x1_0000 + n
            / 0x100_0000 * 0x100_0000);
    }
    r
}

/// The bytes of a persisted block: the length of its header, the header and the content.
pub open spec fn is_block_file(bytes: Seq<u8>, header: Seq<u8>, content: Seq<u8>) -> bool {
    &&& bytes.len() == 4 + header.len() + content.len()
    &&& stored_length(bytes) == header.len() % 0x1_0000_0000
    &&& bytes.skip(4) == header + content
}

/// The file of a block.
pub fn block_file(header: &Vec<u8>, content: &Vec<u8>) -> (r: Vec<u8>)
    requires
        4 + header.len() + content.len() <= usize::MAX,
    ensures
        is_block_file(r@, header@, content@),
{
    let length: u32 = (header.len() as u64 % 0x1_0000_0000) as u32;
    let mut bytes: Vec<u8> = length_bytes(length);
    let ghost first = bytes@;
    bytes.extend_from_slice(header.as_slice());
    bytes.extend_from_slice(content.as_slice());
    proof {
        assert(bytes@ =~= first + header@ + content@);
        assert(bytes@.skip(4) =~= header@ + content@);
    }
    bytes
}

/// The header and the content that stand in a file, or why there are none.
pub open spec fn split_file(bytes: Seq<u8>) -> Result<(Seq<u8>, Seq<u8>), ErrorView> {
    if bytes.len() < 4 {
        Err(ErrorView::Io("failed to fill whole buffer"@))
    } else if stored_length(bytes) > MAX_HEADER_BYTES {
        Err(ErrorView::Protocol("invalid persisted block header length"@))
    } else if bytes.len() < 4 + stored_length(bytes) {
        Err(ErrorView::Io("failed to fill whole buffer"@))
    } else {
        Ok(
            (
                bytes.subrange(4, 4 + stored_length(bytes)),
                bytes.skip(4 + stored_length(bytes)),
            ),
        )
    }
}

/// The header and the content that stand in the file of a block.
pub fn split_block_file(bytes: &Vec<u8>) -> (r: Result<(Vec<u8>, Vec<u8>), SparkXError>)
    ensures
        match r {
            Ok((header, content)) => split_file(bytes@) == Ok::<(Seq<u8>, Seq<u8>), ErrorView>(
                (header@, content@),
            ),
            Err(error) => split_file(bytes@) == Err::<(Seq<u8>, Seq<u8>), ErrorView>(error@),
        },
{
    if bytes.len() < 4 {
        return Err(SparkXError::Io("failed to fill whole buffer".to_owned()));
    }
    let first: Vec<u8> = vec![bytes[0], bytes[1], bytes[2], bytes[3]];
    let length: usize = match header_length(&first) {
        Ok(length) => length,
        Err(error) => return Err(error),
    };
    if bytes.len() - 4 < length {
        return Err(SparkXError::Io("failed to fill whole buffer".to_owned()));
    }
    let mut header: Vec<u8> = Vec::new();
    for i in 0..length
        invariant
            4 + length <= bytes.len(),
            header@ == bytes@.subrange(4, 4 + i),
    {
        header.push(bytes[4 + i]);
        proof {
            assert(bytes@.subrange(4, 4 + i).push(bytes@[4 + i]) =~= bytes@.subrange(4, 5 + i));
        }
    }
    let mut content: Vec<u8> = Vec::new();
    for i in 4 + length..bytes.len()
        invariant
            4 + length <= bytes.len(),
            content@ == bytes@.subrange(4 + length, i as int),
    {
        content.push(bytes[i]);
        proof {
            assert(bytes@.subrange(4 + length, i as int).push(bytes@[i as int])
                =~= bytes@.subrange(4 + length, i + 1));
        }
    }
    proof {
        assert(content@ =~= bytes@.skip(4 + length));
    }
    Ok((header, content))
}

/// Splitting the file of a block gives back the header and the content that it was made of, where
/// the header is not too long.
pub proof fn splitting_undoes_joining(bytes: Seq<u8>, header: Seq<u8>, content: Seq<u8>)
    requires
        is_block_file(bytes, header, content),
        header.len() <= MAX_HEADER_BYTES,
    ensures
        split_file(bytes) == Ok::<(Seq<u8>, Seq<u8>), ErrorView>((header, content)),
{
    let length = header.len() as int;
    let rest = bytes.skip(4);
    assert forall|i: int| 0 <= i < length implies bytes.subrange(4, 4 + length)[i] == header[i] by {
        assert(rest[i] == bytes[4 + i]);
    }
    assert(bytes.subrange(4, 4 + length) =~= header);
    assert forall|i: int| 0 <= i < content.len() implies bytes.skip(4 + length)[i]
        == content[i] by {
        assert(rest[length + i] == bytes[4 + length + i]);
    }
    assert(bytes.skip(4 + length) =~= content);
}

/// What a block takes on disk with its header.
pub open spec fn file_bytes(header: nat, content: u64) -> int {
    header + content + 4
}

/// Whether there is room for a block with its header.
pub fn check_room(header: usize, content: u64, available: u64) -> (r: Result<(), SparkXError>)
    ensures
        outcome(r) == (if file_bytes(header as nat, content) > available {
            Err(full_failure())
        } else {
            Ok(())
        }),
{
    let total: u128 = header as u128 + content as u128 + 4;
    if total > available as u128 {
        Err(full())
    } else {
        Ok(())
    }
}

/// What is wrong with the header of a persisted block, if anything is.
pub open spec fn header_check(
    version: u16,
    header_checksum: Seq<char>,
    content_checksum: Seq<char>,
) -> Result<(), ErrorView> {
    if version != crate::protocol::PROTOCOL_VERSION {
        Err(ErrorView::Protocol("persisted block version mismatch"@))
    } else {
        checksum_check(header_checksum, content_checksum)
    }
}

/// Whether the header of a persisted block fits its content.
pub fn check_header(version: u16, header_checksum: &str, content_checksum: &str) -> (r: Result<
    (),
    SparkXError,
>)
    ensures
        outcome(r) == header_check(version, header_checksum@, content_checksum@),
{
    if version != crate::protocol::PROTOCOL_VERSION {
        return Err(SparkXError::protocol("persisted block version mismatch".to_owned()));
    }
    same_checksum(header_checksum, content_checksum)
}

/// Whether a block that was read back is the one that a ticket names.
pub fn check_persisted(
    ticket: &str,
    header_ticket: &str,
    entry_checksum: &str,
    content_checksum: &str,
) -> (r: Result<(), SparkXError>)
    ensures
        outcome(r) == (if header_ticket@ != ticket@ {
            Err(ErrorView::Protocol("persisted block ticket mismatch"@))
        } else {
            checksum_check(entry_checksum@, content_checksum@)
        }),
{
    if !same_text(header_ticket, ticket) {
        return Err(SparkXError::protocol("persisted block ticket mismatch".to_owned()));
    }
    same_checksum(entry_checksum, content_checksum)
}

} // verus!
