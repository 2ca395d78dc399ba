//! Which chains of sectors come to an end, and where the allocation table has its numbers from.

use crate::compound::{
    arrival, chain_ends, first_words, is_chain, is_on_way, is_walk, lemma_circle_never_ends,
    sector_start, table_in, whole_sectors, word, words_in, words_left,
};
use vstd::prelude::*;

verus! {

/// A chain that comes back to one of its sectors never ends.
pub proof fn circles_never_end(next: Seq<u32>, start: int, walk: Seq<int>, back: int)
    requires
        is_walk(next, start, walk),
        0 <= back < walk.len(),
        arrival(next, start, walk, walk.len() as int) == walk[back],
    ensures
        !chain_ends(next, start),
{
    lemma_circle_never_ends(next, start, walk, back);
}

/// Where every sector is followed by a later one or by none, all chains end.
pub proof fn rising_chains_end(next: Seq<u32>, start: int)
    requires
        0 <= start,
        forall|sector: int| 0 <= sector < next.len() ==> #[trigger] next[sector] > sector,
    ensures
        chain_ends(next, start),
    decreases
            (if start < next.len() {
                next.len() - start
            } else {
                0
            }),
{
    if start >= next.len() {
        assert(is_chain(next, start, seq![]));
    } else {
        let after = next[start] as int;
        rising_chains_end(next, after);
        let rest = choose|path: Seq<int>| is_chain(next, after, path);
        let path = seq![start] + rest;
        assert forall|i: int| 0 <= i < path.len() implies #[trigger] is_on_way(
            next,
            start,
            path,
            i,
        ) by {
            if i > 0 {
                assert(is_on_way(next, after, rest, i - 1));
                assert(path[i] == rest[i - 1]);
                if i > 1 {
                    assert(path[i - 1] == rest[i - 2]);
                }
            }
        }
        let n = path.len() as int;
        if rest.len() > 0 {
            assert(path[n - 1] == rest[rest.len() - 1]);
        }
        assert(arrival(next, start, path, n) == arrival(next, after, rest, rest.len() as int));
        assert(is_chain(next, start, path));
    }
}

/// A number is the sum of its four bytes, each worth 256 times as much as the one before.
pub proof fn numbers_have_their_lowest_byte_first(contents: Seq<u8>, at: int)
    requires
        0 <= at,
        at + 4 <= contents.len(),
    ensures
        word(contents, at) % 256 == contents[at],
        word(contents, at) / 256 % 256 == contents[at + 1],
        word(contents, at) / 65_536 % 256 == contents[at + 2],
        word(contents, at) / 16_777_216 == contents[at + 3],
{
    let a = contents[at] as int;
    let b = contents[at + 1] as int;
    let c = contents[at + 2] as int;
    let d = contents[at + 3] as int;
    let n = a + 256 * b + 65_536 * c + 16_777_216 * d;
    assert(0 <= n < 0x1_0000_0000);
    assert(word(contents, at) == n);
}

/// The allocation table has for each listed sector, one after the other, the numbers that stand in it,
/// as long as all of them are whole.
pub proof fn table_has_the_numbers_of_its_sectors(
    contents: Seq<u8>,
    large: bool,
    listed: Seq<u32>,
    i: int,
    k: int,
)
    requires
        forall|j: int|
            0 <= j < listed.len() ==> #[trigger] listed[j] < whole_sectors(contents, large),
        0 <= i < listed.len(),
        0 <= k < words_in(large),
    ensures
        table_in(contents, large, listed).len() == listed.len() * words_in(large),
        0 <= i * words_in(large) + k < listed.len() * words_in(large),
        table_in(contents, large, listed)[i * words_in(large) + k] == word(
            contents,
            sector_start(large, listed[i] as int) + 4 * k,
        ),
    decreases listed.len(),
{
    let size = words_in(large);
    let n = listed.len() as int;
    lemma_table_len(contents, large, listed);
    assert(0 <= i * size + k < n * size) by (nonlinear_arith)
        requires
            0 <= i < n,
            0 <= k < size,
    ;
    let before = listed.drop_last();
    lemma_table_len(contents, large, before);
    assert((n - 1) * size + size == n * size) by (nonlinear_arith);
    let sector = listed.last() as int;
    assert(listed[n - 1] < whole_sectors(contents, large));
    let own = first_words(contents, large, sector, words_left(contents, large, sector));
    assert(table_in(contents, large, listed) == table_in(contents, large, before) + own);
    if i < n - 1 {
        assert forall|j: int| 0 <= j < before.len() implies #[trigger] before[j] < whole_sectors(
            contents,
            large,
        ) by {
            assert(before[j] == listed[j]);
        }
        table_has_the_numbers_of_its_sectors(contents, large, before, i, k);
    } else {
        assert(table_in(contents, large, listed)[i * size + k] == own[k]);
    }
}

proof fn lemma_table_len(contents: Seq<u8>, large: bool, listed: Seq<u32>)
    requires
        forall|j: int|
            0 <= j < listed.len() ==> #[trigger] listed[j] < whole_sectors(contents, large),
    ensures
        table_in(contents, large, listed).len() == listed.len() * words_in(large),
    decreases listed.len(),
{
    if listed.len() > 0 {
        let before = listed.drop_last();
        assert forall|j: int| 0 <= j < before.len() implies #[trigger] before[j] < whole_sectors(
            contents,
            large,
        ) by {
            assert(before[j] == listed[j]);
        }
        lemma_table_len(contents, large, before);
        assert(listed[listed.len() - 1] < whole_sectors(contents, large));
        let size = words_in(large);
        let n = listed.len() as int;
        assert((n - 1) * size + size == n * size) by (nonlinear_arith);
    }
}

} // verus!
