//! The frontier splitter, which partitions discovered URLs into near-equal
//! chunks for the worker pool, and the small letter tag that labels each
//! worker in progress output.

use vstd::prelude::*;

verus! {

/// The lower-case letter that tags worker `n`, cycling through the
/// alphabet.
pub open spec fn letter_of(n: int) -> char {
    if n == 0 {
        'a'
    } else if n == 1 {
        'b'
    } else if n == 2 {
        'c'
    } else if n == 3 {
        'd'
    } else if n == 4 {
        'e'
    } else if n == 5 {
        'f'
    } else if n == 6 {
        'g'
    } else if n == 7 {
        'h'
    } else if n == 8 {
        'i'
    } else if n == 9 {
        'j'
    } else if n == 10 {
        'k'
    } else if n == 11 {
        'l'
    } else if n == 12 {
        'm'
    } else if n == 13 {
        'n'
    } else if n == 14 {
        'o'
    } else if n == 15 {
        'p'
    } else if n == 16 {
        'q'
    } else if n == 17 {
        'r'
    } else if n == 18 {
        's'
    } else if n == 19 {
        't'
    } else if n == 20 {
        'u'
    } else if n == 21 {
        'v'
    } else if n == 22 {
        'w'
    } else if n == 23 {
        'x'
    } else if n == 24 {
        'y'
    } else {
        'z'
    }
}

pub fn num_to_letter_ascii(num: usize) -> (r: &'static str)
    ensures
        r@.len() == 1,
        r@[0] == letter_of(num as int % 26),
{
    proof {
        reveal_strlit("a");
        reveal_strlit("b");
        reveal_strlit("c");
        reveal_strlit("d");
        reveal_strlit("e");
        reveal_strlit("f");
        reveal_strlit("g");
        reveal_strlit("h");
        reveal_strlit("i");
        reveal_strlit("j");
        reveal_strlit("k");
        reveal_strlit("l");
        reveal_strlit("m");
        reveal_strlit("n");
        reveal_strlit("o");
        reveal_strlit("p");
        reveal_strlit("q");
        reveal_strlit("r");
        reveal_strlit("s");
        reveal_strlit("t");
        reveal_strlit("u");
        reveal_strlit("v");
        reveal_strlit("w");
        reveal_strlit("x");
        reveal_strlit("y");
        reveal_strlit("z");
    }
    match num % 26 {
        0 => "a",
        1 => "b",
        2 => "c",
        3 => "d",
        4 => "e",
        5 => "f",
        6 => "g",
        7 => "h",
        8 => "i",
        9 => "j",
        10 => "k",
        11 => "l",
        12 => "m",
        13 => "n",
        14 => "o",
        15 => "p",
        16 => "q",
        17 => "r",
        18 => "s",
        19 => "t",
        20 => "u",
        21 => "v",
        22 => "w",
        23 => "x",
        24 => "y",
        _ => "z",
    }
}

/// Split `source` into chunks of `floor(len / chunks) + 1` items each,
/// filled greedily in order. The concatenation of the chunks is exactly
/// the input; an empty input yields no chunks at all, and an input whose
/// length divides exactly leaves one trailing empty chunk.
pub fn split(source: Vec<String>, chunks: usize) -> (r: Vec<Vec<String>>)
    requires
        source.len() == 0 || chunks >= 1,
        source.len() < usize::MAX,
    ensures
        r.deep_view().flatten() == source.deep_view(),
        source.len() == 0 ==> r.len() == 0,
        chunks >= 1 ==> forall|i: int|
            0 <= i < r.len() ==> r[i]@.len() <= source@.len() as int / chunks as int + 1,
{
    if source.len() == 0 {
        let r: Vec<Vec<String>> = Vec::new();
        proof {
            assert(r.deep_view() =~= Seq::<Seq<Seq<char>>>::empty());
            assert(r.deep_view().flatten() =~= source.deep_view());
        }
        return r;
    }
    let chunk_size: usize = source.len() / chunks + 1;
    let mut done: Vec<Vec<String>> = Vec::new();
    let mut cur: Vec<String> = Vec::new();
    let mut i: usize = 0;
    while i < source.len()
        invariant
            i <= source.len(),
            chunk_size == source@.len() as int / chunks as int + 1,
            chunks >= 1,
            cur@.len() < chunk_size,
            forall|j: int| 0 <= j < done@.len() ==> done[j]@.len() <= chunk_size,
            done.deep_view().flatten() + cur.deep_view() == source.deep_view().take(i as int),
        decreases source.len() - i,
    {
        let ghost prev_cur = cur.deep_view();
        let ghost prev_done = done.deep_view();
        let item = (&source[i]).clone();
        cur.push(item);
        proof {
            assert(cur.deep_view() =~= prev_cur.push(source@[i as int]@));
            assert(source.deep_view().take(i + 1) =~= source.deep_view().take(i as int).push(
                source@[i as int]@,
            ));
            assert(done.deep_view().flatten() + cur.deep_view() =~= source.deep_view().take(
                i + 1,
            ));
        }
        if cur.len() == chunk_size {
            let ghost full_cur = cur.deep_view();
            done.push(cur);
            cur = Vec::new();
            proof {
                assert(done.deep_view() =~= prev_done.push(full_cur));
                prev_done.lemma_flatten_push(full_cur);
                assert(prev_done.push(full_cur).flatten() == prev_done.flatten() + full_cur);
                assert(cur.deep_view() =~= Seq::<Seq<char>>::empty());
                assert(done.deep_view().flatten() + cur.deep_view() =~= source.deep_view().take(
                    i + 1,
                ));
            }
        }
        i += 1;
    }
    let ghost last_cur = cur.deep_view();
    let ghost prev_done = done.deep_view();
    done.push(cur);
    proof {
        assert(done.deep_view() =~= prev_done.push(last_cur));
        prev_done.lemma_flatten_push(last_cur);
        assert(prev_done.push(last_cur).flatten() == prev_done.flatten() + last_cur);
        assert(source.deep_view().take(source@.len() as int) =~= source.deep_view());
        assert(done.deep_view().flatten() =~= source.deep_view());
    }
    done
}

} // verus!
