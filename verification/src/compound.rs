//! The sector chains of a compound file, the container of `.xls` workbooks.
//!
//! After its header such a file is cut into sectors. An allocation table gives for each sector the
//! one that comes after it, and is itself spread over sectors, which are listed in the header and
//! in a chain of further sectors. A reader that follows a chain which goes in a circle never
//! arrives.

use vstd::prelude::*;
use vstd::set_lib::{lemma_int_range, lemma_len_subset};

verus! {

/// How many sectors of the allocation table the header lists.
pub const LISTED_IN_HEADER: usize = 109;

/// Numbers from here on stand for no sector.
pub const FIRST_RESERVED: usize = 0xFFFF_FFFA;

/// The number in the four bytes from `at` on, the lowest byte first.
pub open spec fn word(contents: Seq<u8>, at: int) -> u32 {
    (contents[at] + 0x100 * contents[at + 1] + 0x1_0000 * contents[at + 2] + 0x100_0000
        * contents[at + 3]) as u32
}

/// Whether bytes start with the signature of a compound file.
pub open spec fn is_signed(contents: Seq<u8>) -> bool {
    contents.len() >= 512 && contents.take(8) == seq![
        0xD0u8,
        0xCF,
        0x11,
        0xE0,
        0xA1,
        0xB1,
        0x1A,
        0xE1,
    ]
}

/// Whether the bytes have the header of a compound file, and then whether its sectors are large:
/// 4096 bytes, else 512. The header fills the place of one sector.
pub open spec fn sectors_of(contents: Seq<u8>) -> Option<bool> {
    if !is_signed(contents) || contents[32] != 6 || contents[33] != 0 || contents[31] != 0 {
        None
    } else if contents[30] == 9 {
        Some(false)
    } else if contents[30] == 12 && contents.len() >= 4096 {
        Some(true)
    } else {
        None
    }
}

/// How many sectors of the file are whole.
pub open spec fn whole_sectors(contents: Seq<u8>, large: bool) -> int {
    if large {
        contents.len() / 4096 - 1
    } else {
        contents.len() / 512 - 1
    }
}

/// Where a sector starts.
pub open spec fn sector_start(large: bool, sector: int) -> int {
    if large {
        4096 * (sector + 1)
    } else {
        512 * (sector + 1)
    }
}

/// How many numbers a sector holds.
pub open spec fn words_in(large: bool) -> int {
    if large {
        1024
    } else {
        128
    }
}

/// The first `count` numbers in a sector.
pub open spec fn first_words(contents: Seq<u8>, large: bool, sector: int, count: int) -> Seq<u32> {
    Seq::new(count as nat, |i: int| word(contents, sector_start(large, sector) + 4 * i))
}

/// For each whole sector its last number: in a sector that lists sectors of the allocation table,
/// the one that goes on with the list.
pub open spec fn list_links(contents: Seq<u8>, large: bool) -> Seq<u32> {
    Seq::new(
        whole_sectors(contents, large) as nat,
        |sector: int| word(contents, sector_start(large, sector) + 4 * (words_in(large) - 1)),
    )
}

/// The first sector that goes on with the list in the header.
pub open spec fn list_start(contents: Seq<u8>) -> int {
    word(contents, 68) as int
}

/// What the sectors of a list have listed.
pub open spec fn listed_in(contents: Seq<u8>, large: bool, sectors: Seq<int>) -> Seq<u32>
    decreases sectors.len(),
{
    if sectors.len() == 0 {
        seq![]
    } else {
        listed_in(contents, large, sectors.drop_last()) + first_words(
            contents,
            large,
            sectors.last(),
            words_in(large) - 1,
        )
    }
}

/// The sectors of the allocation table, where the list in the header goes on in `sectors`.
pub open spec fn table_sectors(contents: Seq<u8>, large: bool, sectors: Seq<int>) -> Seq<u32> {
    Seq::new(LISTED_IN_HEADER as nat, |i: int| word(contents, 76 + 4 * i)) + listed_in(
        contents,
        large,
        sectors,
    )
}

/// How many numbers the file has of a sector: all of a whole one, and what is left before the end of
/// the file of the one behind the last whole one.
pub open spec fn words_left(contents: Seq<u8>, large: bool, sector: int) -> int {
    if sector < whole_sectors(contents, large) {
        words_in(large)
    } else {
        (contents.len() - sector_start(large, sector)) / 4
    }
}

/// The allocation table that the listed sectors hold, as far as the file has them.
pub open spec fn table_in(contents: Seq<u8>, large: bool, listed: Seq<u32>) -> Seq<u32>
    decreases listed.len(),
{
    if listed.len() == 0 {
        seq![]
    } else {
        let before = table_in(contents, large, listed.drop_last());
        let sector = listed.last() as int;
        if sector <= whole_sectors(contents, large) {
            before + first_words(contents, large, sector, words_left(contents, large, sector))
        } else {
            before
        }
    }
}

/// Where a walk from `start` over `path` is after `steps` steps.
pub open spec fn arrival(next: Seq<u32>, start: int, path: Seq<int>, steps: int) -> int {
    if steps <= 0 {
        start
    } else {
        next[path[steps - 1]] as int
    }
}

/// Whether a walk from `start` over `path` is at a sector of the table after `steps` steps, and
/// goes on with it.
pub open spec fn is_on_way(next: Seq<u32>, start: int, path: Seq<int>, steps: int) -> bool {
    0 <= path[steps] < next.len() && path[steps] == arrival(next, start, path, steps)
}

/// Whether the sectors of `path` come one after the other, from `start` on.
pub open spec fn is_walk(next: Seq<u32>, start: int, path: Seq<int>) -> bool {
    forall|i: int| 0 <= i < path.len() ==> #[trigger] is_on_way(next, start, path, i)
}

/// Whether `path` is the whole chain of sectors from `start` on: what follows is no sector of the
/// table.
pub open spec fn is_chain(next: Seq<u32>, start: int, path: Seq<int>) -> bool {
    is_walk(next, start, path) && arrival(next, start, path, path.len() as int) >= next.len()
}

/// Whether the chain from `start` on comes to an end.
pub open spec fn chain_ends(next: Seq<u32>, start: int) -> bool {
    exists|path: Seq<int>| is_chain(next, start, path)
}

/// Whether what is listed tells the allocation table: the sector that the end of the file cuts off
/// is listed once at most, and the one behind it not at all.
pub open spec fn is_clear_list(contents: Seq<u8>, large: bool, listed: Seq<u32>) -> bool {
    &&& forall|i: int|
        0 <= i < listed.len() ==> #[trigger] listed[i] != whole_sectors(contents, large) + 1
    &&& forall|i: int, j: int|
        0 <= i < j < listed.len() && #[trigger] listed[i] == whole_sectors(contents, large)
            ==> #[trigger] listed[j] != whole_sectors(contents, large)
}

/// Whether the list of the sectors of the allocation table goes on in the sectors of `path`, and
/// ends with no sector that the end of the file cuts off, tells the table, and every chain of the
/// table comes to an end.
pub open spec fn is_sound(contents: Seq<u8>, large: bool, path: Seq<int>) -> bool {
    let links = list_links(contents, large);
    let listed = table_sectors(contents, large, path);
    let table = table_in(contents, large, listed);
    &&& whole_sectors(contents, large) + 1 < FIRST_RESERVED
    &&& is_chain(links, list_start(contents), path)
    &&& arrival(links, list_start(contents), path, path.len() as int) > whole_sectors(
        contents,
        large,
    ) + 1
    &&& is_clear_list(contents, large, listed)
    &&& forall|sector: int| 0 <= sector < table.len() ==> #[trigger] chain_ends(table, sector)
}

/// Whether the bytes are no compound file, or one whose chains of sectors all come to an end.
pub open spec fn chains_end(contents: Seq<u8>) -> bool {
    match sectors_of(contents) {
        None => true,
        Some(large) => exists|path: Seq<int>| is_sound(contents, large, path),
    }
}

/// A walk is the beginning of the chain.
proof fn lemma_walk_begins_chain(next: Seq<u32>, start: int, walk: Seq<int>, chain: Seq<int>)
    requires
        is_walk(next, start, walk),
        is_chain(next, start, chain),
    ensures
        walk.len() <= chain.len(),
        forall|i: int| 0 <= i < walk.len() ==> walk[i] == chain[i],
    decreases walk.len(),
{
    if walk.len() > 0 {
        let before = walk.drop_last();
        let last = before.len() as int;
        assert forall|i: int| 0 <= i < before.len() implies #[trigger] is_on_way(
            next,
            start,
            before,
            i,
        ) by {
            assert(is_on_way(next, start, walk, i));
        }
        lemma_walk_begins_chain(next, start, before, chain);
        if last > 0 {
            assert(before[last - 1] == chain[last - 1]);
        }
        assert(is_on_way(next, start, walk, last));
        assert(arrival(next, start, walk, last) == arrival(next, start, chain, last));
        assert(is_on_way(next, start, chain, last));
        assert forall|i: int| 0 <= i < walk.len() implies walk[i] == chain[i] by {
            if i < last {
                assert(before[i] == chain[i]);
            }
        }
    }
}

/// What is left of a chain is the chain from there on.
proof fn lemma_rest_of_chain(next: Seq<u32>, start: int, chain: Seq<int>, from: int)
    requires
        is_chain(next, start, chain),
        0 <= from < chain.len(),
    ensures
        is_chain(next, chain[from], chain.skip(from)),
{
    let rest = chain.skip(from);
    assert forall|i: int| 0 <= i < rest.len() implies #[trigger] is_on_way(
        next,
        chain[from],
        rest,
        i,
    ) by {
        assert(is_on_way(next, start, chain, from + i));
    }
    assert(rest.last() == chain.last());
}

/// A walk that comes back to where it was is the beginning of no chain.
pub(crate) proof fn lemma_circle_never_ends(next: Seq<u32>, start: int, walk: Seq<int>, back: int)
    requires
        is_walk(next, start, walk),
        0 <= back < walk.len(),
        arrival(next, start, walk, walk.len() as int) == walk[back],
    ensures
        !chain_ends(next, start),
{
    if chain_ends(next, start) {
        let chain = choose|path: Seq<int>| is_chain(next, start, path);
        let len = walk.len() as int;
        lemma_walk_begins_chain(next, start, walk, chain);
        assert(walk[len - 1] == chain[len - 1]);
        assert(arrival(next, start, chain, len) == walk[back]);
        assert(is_on_way(next, start, walk, back));
        assert(is_on_way(next, start, chain, len));
        lemma_rest_of_chain(next, start, chain, back);
        lemma_rest_of_chain(next, start, chain, len);
        lemma_walk_begins_chain(next, chain[back], chain.skip(back), chain.skip(len));
    }
}

/// Where a walk arrives at the start of a chain, the chain of each sector on the way ends.
proof fn lemma_way_to_end(next: Seq<u32>, start: int, walk: Seq<int>, at: int)
    requires
        is_walk(next, start, walk),
        arrival(next, start, walk, walk.len() as int) == at,
        chain_ends(next, at),
    ensures
        forall|i: int| 0 <= i < walk.len() ==> chain_ends(next, #[trigger] walk[i]),
{
    let rest = choose|path: Seq<int>| is_chain(next, at, path);
    assert forall|i: int| 0 <= i < walk.len() implies chain_ends(next, #[trigger] walk[i]) by {
        let tail = walk.skip(i);
        let path = tail + rest;
        assert forall|j: int| 0 <= j < path.len() implies #[trigger] is_on_way(
            next,
            walk[i],
            path,
            j,
        ) by {
            if j < tail.len() {
                assert(is_on_way(next, start, walk, i + j));
            } else {
                assert(is_on_way(next, at, rest, j - tail.len()));
            }
        }
        if rest.len() > 0 {
            assert(path.last() == rest.last());
        } else {
            assert(path.last() == walk.last());
        }
        assert(is_chain(next, walk[i], path));
    }
}

/// A walk goes one step on.
proof fn lemma_step(next: Seq<u32>, start: int, walk: Seq<int>, at: int)
    requires
        is_walk(next, start, walk),
        arrival(next, start, walk, walk.len() as int) == at,
        0 <= at < next.len(),
    ensures
        is_walk(next, start, walk.push(at)),
        arrival(next, start, walk.push(at), walk.len() as int + 1) == next[at],
{
    let longer = walk.push(at);
    assert forall|i: int| 0 <= i < longer.len() implies #[trigger] is_on_way(
        next,
        start,
        longer,
        i,
    ) by {
        if i < walk.len() {
            assert(is_on_way(next, start, walk, i));
        }
    }
}

/// A set of sectors of a table with one that is missing has fewer of them than the table.
proof fn lemma_room_left(sectors: Set<int>, missing: int, len: nat)
    requires
        sectors.finite(),
        forall|sector: int| sectors.contains(sector) ==> 0 <= sector < len,
        0 <= missing < len,
        !sectors.contains(missing),
    ensures
        sectors.len() < len,
{
    lemma_int_range(0, len as int);
    let more = sectors.insert(missing);
    assert(more.subset_of(vstd::set_lib::set_int_range(0, len as int)));
    lemma_len_subset(more, vstd::set_lib::set_int_range(0, len as int));
}

/// There is one chain from a start on.
proof fn lemma_one_chain(next: Seq<u32>, start: int, one: Seq<int>, other: Seq<int>)
    requires
        is_chain(next, start, one),
        is_chain(next, start, other),
    ensures
        one == other,
{
    lemma_walk_begins_chain(next, start, one, other);
    lemma_walk_begins_chain(next, start, other, one);
    assert(one =~= other);
}

fn word_at(contents: &Vec<u8>, at: usize) -> (r: u32)
    requires
        at + 4 <= contents@.len(),
    ensures
        r == word(contents@, at as int),
{
    assert(contents.len() == contents@.len());
    contents[at] as u32 + 0x100 * (contents[at + 1] as u32) + 0x1_0000 * (contents[at + 2] as u32)
        + 0x100_0000 * (contents[at + 3] as u32)
}

fn header_of(contents: &Vec<u8>) -> (r: Option<bool>)
    ensures
        r == sectors_of(contents@),
{
    let len: usize = contents.len();
    if len < 512 {
        return None;
    }
    let signed = contents[0] == 0xD0 && contents[1] == 0xCF && contents[2] == 0x11 && contents[3]
        == 0xE0 && contents[4] == 0xA1 && contents[5] == 0xB1 && contents[6] == 0x1A && contents[7]
        == 0xE1;
    proof {
        let signature = seq![0xD0u8, 0xCF, 0x11, 0xE0, 0xA1, 0xB1, 0x1A, 0xE1];
        if signed {
            assert(contents@.take(8) =~= signature);
        } else {
            assert forall|i: int| 0 <= i < 8 implies contents@.take(8)[i] == contents@[i] by {}
            assert(signature[0] == 0xD0 && signature[1] == 0xCF && signature[2] == 0x11
                && signature[3] == 0xE0 && signature[4] == 0xA1 && signature[5] == 0xB1
                && signature[6] == 0x1A && signature[7] == 0xE1);
        }
    }
    if !signed || contents[32] != 6 || contents[33] != 0 || contents[31] != 0 {
        None
    } else if contents[30] == 9 {
        Some(false)
    } else if contents[30] == 12 && len >= 4096 {
        Some(true)
    } else {
        None
    }
}

fn start_of(large: bool, sector: usize) -> (r: usize)
    requires
        sector_start(large, sector as int) <= usize::MAX,
    ensures
        r == sector_start(large, sector as int),
{
    if large {
        4096 * (sector + 1)
    } else {
        512 * (sector + 1)
    }
}

/// Appends the first `count` numbers in a sector.
fn push_words(contents: &Vec<u8>, large: bool, sector: usize, count: usize, words: &mut Vec<u32>)
    requires
        sector_start(large, sector as int) + 4 * count <= contents@.len(),
    ensures
        final(words)@ == old(words)@ + first_words(
            contents@,
            large,
            sector as int,
            count as int,
        ),
{
    assert(contents.len() == contents@.len());
    let start = start_of(large, sector);
    let ghost before = words@;
    let ghost all = first_words(contents@, large, sector as int, count as int);
    let mut i: usize = 0;
    assert(words@ =~= before + all.take(0));
    while i < count
        invariant
            i <= count,
            start == sector_start(large, sector as int),
            start + 4 * count <= contents@.len(),
            contents@.len() <= usize::MAX,
            all == first_words(contents@, large, sector as int, count as int),
            words@ == before + all.take(i as int),
        decreases count - i,
    {
        words.push(word_at(contents, start + 4 * i));
        assert(all.take(i + 1) =~= all.take(i as int).push(all[i as int]));
        assert(words@ =~= before + all.take(i + 1));
        i += 1;
    }
    assert(all.take(count as int) =~= all);
}

/// The sectors of the allocation table, where the list of them ends and is not cut off.
fn find_table(contents: &Vec<u8>, large: bool, whole: usize) -> (r: Option<Vec<u32>>)
    requires
        contents@.len() >= 512,
        whole == whole_sectors(contents@, large),
    ensures
        match r {
            Some(listed) => exists|path: Seq<int>| #[trigger]
                is_chain(list_links(contents@, large), list_start(contents@), path) && arrival(
                    list_links(contents@, large),
                    list_start(contents@),
                    path,
                    path.len() as int,
                ) > whole + 1 && listed@ == table_sectors(contents@, large, path),
            None => forall|path: Seq<int>| #[trigger]
                is_chain(list_links(contents@, large), list_start(contents@), path) ==> arrival(
                    list_links(contents@, large),
                    list_start(contents@),
                    path,
                    path.len() as int,
                ) <= whole + 1,
        },
{
    assert(contents.len() == contents@.len());
    let ghost links = list_links(contents@, large);
    let ghost first = list_start(contents@);
    let ghost mut walk: Seq<int> = seq![];
    let ghost mut visited: Set<int> = Set::empty();
    let count: usize = if large { 1024 } else { 128 };
    let mut listed: Vec<u32> = Vec::new();
    let mut i: usize = 0;
    while i < LISTED_IN_HEADER
        invariant
            i <= LISTED_IN_HEADER,
            contents@.len() >= 512,
            listed@ == Seq::new(i as nat, |i: int| word(contents@, 76 + 4 * i)),
        decreases LISTED_IN_HEADER - i,
    {
        listed.push(word_at(contents, 76 + 4 * i));
        i += 1;
        assert(listed@ =~= Seq::new(i as nat, |i: int| word(contents@, 76 + 4 * i)));
    }
    let mut seen: Vec<bool> = Vec::new();
    let mut k: usize = 0;
    while k < whole
        invariant
            k <= whole,
            seen@.len() == k,
            forall|j: int| 0 <= j < k ==> !#[trigger] seen@[j],
        decreases whole - k,
    {
        seen.push(false);
        k += 1;
    }
    let mut at: u32 = word_at(contents, 68);
    assert(listed@ =~= table_sectors(contents@, large, walk));
    while (at as usize) < whole
        invariant
            contents@.len() >= 512,
            whole == whole_sectors(contents@, large),
            contents@.len() <= usize::MAX,
            count == words_in(large),
            links == list_links(contents@, large),
            first == list_start(contents@),
            seen@.len() == whole,
            is_walk(links, first, walk),
            arrival(links, first, walk, walk.len() as int) == at,
            listed@ == table_sectors(contents@, large, walk),
            visited.finite(),
            forall|j: int| #[trigger] visited.contains(j) ==> 0 <= j < whole && seen@[j],
            forall|j: int|
                0 <= j < whole && #[trigger] seen@[j] ==> visited.contains(j) && walk.contains(j),
        decreases whole - visited.len(),
    {
        let sector: usize = at as usize;
        if seen[sector] {
            proof {
                let back = choose|back: int| 0 <= back < walk.len() && walk[back] == sector;
                lemma_circle_never_ends(links, first, walk, back);
            }
            return None;
        }
        let ghost before = listed@;
        let ghost walked = walk;
        push_words(contents, large, sector, count - 1, &mut listed);
        let start = start_of(large, sector);
        at = word_at(contents, start + 4 * (count - 1));
        seen.set(sector, true);
        proof {
            lemma_room_left(visited, sector as int, whole as nat);
            lemma_step(links, first, walk, sector as int);
            walk = walk.push(sector as int);
            visited = visited.insert(sector as int);
            assert(walk.drop_last() =~= walked);
            assert(listed@ =~= table_sectors(contents@, large, walk));
            assert forall|j: int| 0 <= j < whole && #[trigger] seen@[j] implies visited.contains(j)
                && walk.contains(j) by {
                if j != sector {
                    let place = choose|place: int| 0 <= place < walked.len() && walked[place] == j;
                    assert(walk[place] == j);
                } else {
                    assert(walk[walked.len() as int] == j);
                }
            }
        }
    }
    assert(is_chain(links, first, walk));
    if at as usize - whole <= 1 {
        proof {
            assert forall|path: Seq<int>| #[trigger] is_chain(links, first, path) implies arrival(
                links,
                first,
                path,
                path.len() as int,
            ) <= whole + 1 by {
                lemma_one_chain(links, first, path, walk);
            }
        }
        return None;
    }
    Some(listed)
}

/// The allocation table, where what is listed tells it.
fn read_table(contents: &Vec<u8>, large: bool, whole: usize, listed: &Vec<u32>) -> (r: Option<
    Vec<u32>,
>)
    requires
        contents@.len() >= 512,
        whole == whole_sectors(contents@, large),
        whole + 1 < FIRST_RESERVED,
    ensures
        r is Some <==> is_clear_list(contents@, large, listed@),
        r matches Some(table) ==> table@ == table_in(contents@, large, listed@),
{
    assert(contents.len() == contents@.len());
    let count: usize = if large { 1024 } else { 128 };
    let mut table: Vec<u32> = Vec::new();
    // Where the sector that the end of the file cuts off was listed.
    let mut cut: Option<usize> = None;
    let mut i: usize = 0;
    assert(listed@.take(0) =~= seq![]);
    while i < listed.len()
        invariant
            i <= listed@.len(),
            contents@.len() <= usize::MAX,
            whole == whole_sectors(contents@, large),
            count == words_in(large),
            table@ == table_in(contents@, large, listed@.take(i as int)),
            match cut {
                None => forall|j: int| 0 <= j < i ==> #[trigger] listed@[j] != whole,
                Some(place) => place < i && listed@[place as int] == whole,
            },
            is_clear_list(contents@, large, listed@.take(i as int)),
        decreases listed@.len() - i,
    {
        let sector: usize = listed[i] as usize;
        let ghost so_far = listed@.take(i as int);
        let ghost longer = listed@.take(i + 1);
        assert(longer.drop_last() =~= so_far);
        assert forall|j: int| 0 <= j < i implies so_far[j] == listed@[j] && longer[j]
            == listed@[j] by {}
        if sector < whole {
            push_words(contents, large, sector, count, &mut table);
        } else if sector == whole {
            if cut.is_some() {
                return None;
            }
            cut = Some(i);
            let left: usize = (contents.len() - start_of(large, sector)) / 4;
            push_words(contents, large, sector, left, &mut table);
        } else if sector == whole + 1 {
            return None;
        }
        i += 1;
    }
    assert(listed@.take(i as int) =~= listed@);
    Some(table)
}

/// Whether every chain of a table comes to an end.
fn all_end(next: &Vec<u32>) -> (r: bool)
    ensures
        r == forall|sector: int| 0 <= sector < next@.len() ==> #[trigger] chain_ends(next@, sector),
{
    let len: usize = next.len();
    // From which start a sector was first come by, counted from one; zero where from none.
    let mut found: Vec<usize> = Vec::new();
    let mut k: usize = 0;
    while k < len
        invariant
            k <= len,
            found@.len() == k,
            forall|j: int| 0 <= j < k ==> #[trigger] found@[j] == 0,
        decreases len - k,
    {
        found.push(0);
        k += 1;
    }
    let ghost mut visited: Set<int> = Set::empty();
    let mut start: usize = 0;
    while start < len
        invariant
            start <= len,
            len == next@.len(),
            found@.len() == len,
            visited.finite(),
            forall|j: int| #[trigger] visited.contains(j) ==> 0 <= j < len && found@[j] != 0,
            forall|j: int| 0 <= j < len && #[trigger] found@[j] != 0 ==> visited.contains(j),
            forall|j: int|
                0 <= j < len && #[trigger] found@[j] != 0 ==> found@[j] <= start && chain_ends(
                    next@,
                    j,
                ),
            forall|j: int| 0 <= j < start ==> #[trigger] found@[j] != 0,
        decreases len - start,
    {
        let ghost mut walk: Seq<int> = seq![];
        let mut at: usize = start;
        while at < len && found[at] == 0
            invariant
                start < len,
                len == next@.len(),
                found@.len() == len,
                visited.finite(),
                forall|j: int| #[trigger] visited.contains(j) ==> 0 <= j < len && found@[j] != 0,
                forall|j: int| 0 <= j < len && #[trigger] found@[j] != 0 ==> visited.contains(j),
                forall|j: int|
                    0 <= j < len && #[trigger] found@[j] != 0 ==> (found@[j] <= start && chain_ends(
                        next@,
                        j,
                    )) || (found@[j] == start + 1 && walk.contains(j)),
                forall|j: int| 0 <= j < start ==> #[trigger] found@[j] != 0,
                is_walk(next@, start as int, walk),
                arrival(next@, start as int, walk, walk.len() as int) == at,
                found@[start as int] != 0 || walk.len() == 0,
            decreases len - visited.len(),
        {
            let ghost walked = walk;
            found.set(at, start + 1);
            proof {
                lemma_room_left(visited, at as int, len as nat);
                lemma_step(next@, start as int, walk, at as int);
                visited = visited.insert(at as int);
                walk = walk.push(at as int);
                assert forall|j: int| walked.contains(j) implies walk.contains(j) by {
                    let place = choose|place: int| 0 <= place < walked.len() && walked[place] == j;
                    assert(walk[place] == j);
                }
                assert(walk[walked.len() as int] == at);
            }
            at = next[at] as usize;
        }
        if at < len && found[at] == start + 1 {
            proof {
                let back = choose|back: int| 0 <= back < walk.len() && walk[back] == at;
                lemma_circle_never_ends(next@, start as int, walk, back);
            }
            return false;
        }
        proof {
            if at >= len {
                assert(is_chain(next@, at as int, seq![]));
            }
            lemma_way_to_end(next@, start as int, walk, at as int);
        }
        start += 1;
    }
    assert forall|sector: int| 0 <= sector < len implies #[trigger] chain_ends(next@, sector) by {
        assert(found@[sector] != 0);
    }
    true
}

/// Whether the bytes are no compound file, or one whose chains of sectors all come to an end.
pub fn has_sound_chains(contents: &Vec<u8>) -> (r: bool)
    ensures
        r == chains_end(contents@),
{
    let large = match header_of(contents) {
        None => return true,
        Some(large) => large,
    };
    let whole: usize = if large {
        contents.len() / 4096 - 1
    } else {
        contents.len() / 512 - 1
    };
    if whole >= FIRST_RESERVED - 1 {
        return false;
    }
    let listed = match find_table(contents, large, whole) {
        None => return false,
        Some(listed) => listed,
    };
    let ghost path = choose|path: Seq<int>| #[trigger]
        is_chain(list_links(contents@, large), list_start(contents@), path) && arrival(
            list_links(contents@, large),
            list_start(contents@),
            path,
            path.len() as int,
        ) > whole + 1 && listed@ == table_sectors(contents@, large, path);
    proof {
        assert forall|other: Seq<int>| #[trigger] is_sound(contents@, large, other) implies other
            == path by {
            lemma_one_chain(list_links(contents@, large), list_start(contents@), other, path);
        }
    }
    match read_table(contents, large, whole, &listed) {
        None => false,
        Some(table) => {
            let ends = all_end(&table);
            assert(ends == is_sound(contents@, large, path));
            ends
        },
    }
}

} // verus!
