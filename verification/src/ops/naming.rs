//! Names for files that are moved into a shared directory.

use crate::paths::{
    dot_extension, file_name, file_name_chars, file_stem, join_chars, joined, slice_chars, stem_end,
    stem_len,
};
use crate::text::{chars_of, decimal_chars, decimal_text, push_all, push_text, string_of};
use vstd::prelude::*;

verus! {

/// The name with the counter `n` before its extension: the stem, a space,
/// the counter in parentheses, then the extension with its dot.
pub open spec fn numbered_name(name: Seq<char>, n: nat) -> Seq<char> {
    file_stem(name) + " ("@ + decimal_text(n) + ")"@ + dot_extension(name)
}

/// The texts of a list of strings.
pub open spec fn path_texts(v: Seq<String>) -> Seq<Seq<char>> {
    Seq::new(v.len(), |i: int| v[i]@)
}

/// The `n`-th place tried for `name` in `dir`: the name itself first, then
/// the name with the counters 1, 2 and so on.
pub open spec fn place(dir: Seq<char>, name: Seq<char>, n: nat) -> Seq<char> {
    if n == 0 {
        joined(dir, name)
    } else {
        joined(dir, numbered_name(name, n))
    }
}

/// The place lies among the paths that are taken.
pub open spec fn is_taken(taken: Seq<String>, p: Seq<char>) -> bool {
    path_texts(taken).contains(p)
}

fn taken_has(taken: &Vec<String>, p: &Vec<char>) -> (r: bool)
    ensures
        r == is_taken(taken@, p@),
{
    let text = string_of(p);
    let mut i: usize = 0;
    while i < taken.len()
        invariant
            i <= taken.len(),
            text@ == p@,
            forall|j: int| 0 <= j < i ==> (#[trigger] taken@[j])@ != p@,
        decreases taken.len() - i,
    {
        if taken[i] == text {
            assert(path_texts(taken@)[i as int] == p@);
            return true;
        }
        i = i + 1;
    }
    proof {
        let views = path_texts(taken@);
        if views.contains(p@) {
            let k = choose|k: int| 0 <= k < views.len() && views[k] == p@;
            assert(taken@[k]@ == p@);
        }
    }
    false
}

/// The part of a place that does not depend on the name: the directory,
/// with a separator where it does not end in one.
pub open spec fn place_lead(dir: Seq<char>) -> Seq<char> {
    if dir.len() == 0 || crate::paths::is_sep(dir.last()) {
        dir
    } else {
        dir.push('/')
    }
}

/// Two texts that follow the same lead are the same where the whole texts
/// are.
proof fn lemma_same_lead(lead: Seq<char>, x: Seq<char>, y: Seq<char>)
    requires
        lead + x == lead + y,
    ensures
        x == y,
{
    assert((lead + x).skip(lead.len() as int) =~= x);
    assert((lead + y).skip(lead.len() as int) =~= y);
}

/// Two texts that are followed by the same tail are the same where the
/// whole texts are.
proof fn lemma_same_tail(x: Seq<char>, y: Seq<char>, tail: Seq<char>)
    requires
        x + tail == y + tail,
    ensures
        x == y,
{
    assert((x + tail).len() == x.len() + tail.len());
    assert((y + tail).len() == y.len() + tail.len());
    assert((x + tail).take(x.len() as int) =~= x);
    assert((y + tail).take(y.len() as int) =~= y);
}

/// The places that are tried for a name differ from each other.
pub proof fn lemma_places_differ(dir: Seq<char>, name: Seq<char>, a: nat, b: nat)
    requires
        a != b,
        0 <= stem_len(name) <= name.len(),
    ensures
        place(dir, name, a) != place(dir, name, b),
{
    let lead = place_lead(dir);
    let stem = file_stem(name);
    let ext = dot_extension(name);
    let inner = |n: nat|
        if n == 0 {
            name
        } else {
            numbered_name(name, n)
        };
    assert(place(dir, name, a) =~= lead + inner(a));
    assert(place(dir, name, b) =~= lead + inner(b));
    if place(dir, name, a) == place(dir, name, b) {
        lemma_same_lead(lead, inner(a), inner(b));
        assert(name =~= stem + ext);
        if a == 0 || b == 0 {
            let n = if a == 0 {
                b
            } else {
                a
            };
            assert(numbered_name(name, n).len() == stem.len() + 2 + decimal_text(n).len() + 1
                + ext.len());
            assert(inner(a).len() == inner(b).len());
        } else {
            let open = stem + " ("@;
            let close = ")"@ + ext;
            assert(numbered_name(name, a) =~= open + decimal_text(a) + close);
            assert(numbered_name(name, b) =~= open + decimal_text(b) + close);
            lemma_same_tail(open + decimal_text(a), open + decimal_text(b), close);
            lemma_same_lead(open, decimal_text(a), decimal_text(b));
            crate::text::lemma_decimal_round_trip(a);
            crate::text::lemma_decimal_round_trip(b);
        }
    }
}

/// However many paths are taken, one of the first places is free: as many
/// places as paths are taken, and one more, cannot all be taken.
pub proof fn lemma_some_place_is_free(taken: Seq<Seq<char>>, dir: Seq<char>, name: Seq<char>)
    requires
        0 <= stem_len(name) <= name.len(),
    ensures
        exists|m: nat| m <= taken.len() && !taken.contains(#[trigger] place(dir, name, m)),
    decreases taken.len(),
{
    let n = taken.len();
    if forall|m: nat| m <= n ==> taken.contains(#[trigger] place(dir, name, m)) {
        assert(taken.contains(place(dir, name, n)));
        let k = choose|k: int| 0 <= k < taken.len() && taken[k] == place(dir, name, n);
        let rest = taken.remove(k);
        lemma_some_place_is_free(rest, dir, name);
        let m = choose|m: nat| m <= rest.len() && !rest.contains(#[trigger] place(dir, name, m));
        assert(taken.contains(place(dir, name, m)));
        let j = choose|j: int| 0 <= j < taken.len() && taken[j] == place(dir, name, m);
        lemma_places_differ(dir, name, m, n);
        let at = if j < k {
            j
        } else {
            j - 1
        };
        assert(rest[at] == taken[j]);
        assert(false);
    }
}

/// Where the file at `source_path` goes in the directory `dir`, given the
/// paths in `dir` that are taken.
///
/// The file keeps its name where that is free. Otherwise it gets the
/// smallest counter, from 1 on, whose numbered name is free; there always
/// is one. No place is given only where the path has no file name.
pub fn resolve_destination(dir: &str, source_path: &str, taken: &Vec<String>) -> (out: Option<
    String,
>)
    ensures
        out is Some <==> file_name(source_path@).len() > 0,
        out matches Some(p) ==> exists|n: nat|
            {
                &&& p@ == #[trigger] place(dir@, file_name(source_path@), n)
                &&& !is_taken(taken@, p@)
                &&& forall|m: nat|
                    m < n ==> is_taken(taken@, #[trigger] place(dir@, file_name(source_path@), m))
                &&& n <= taken@.len()
            },
{
    let source = chars_of(source_path);
    let name = file_name_chars(&source);
    if name.len() == 0 {
        return None;
    }
    let dir_chars = chars_of(dir);
    let first = join_chars(&dir_chars, &name);
    if !taken_has(taken, &first) {
        assert(first@ == place(dir@, file_name(source_path@), 0));
        return Some(string_of(&first));
    }
    let cut = stem_end(&name);
    let stem = slice_chars(&name, 0, cut);
    let ext = slice_chars(&name, cut, name.len());
    proof {
        assert(name@.subrange(0, cut as int) == file_stem(name@));
        assert(name@.subrange(cut as int, name@.len() as int) == dot_extension(name@));
    }
    let mut counter: u64 = 1;
    let limit: u64 = taken.len() as u64;
    while counter <= limit
        invariant
            1 <= counter,
            limit == taken@.len(),
            name@ == file_name(source_path@),
            name@.len() > 0,
            dir_chars@ == dir@,
            stem@ == file_stem(name@),
            ext@ == dot_extension(name@),
            0 <= stem_len(name@) <= name@.len(),
            forall|m: nat|
                m < counter ==> is_taken(
                    taken@,
                    #[trigger] place(dir@, file_name(source_path@), m),
                ),
        decreases limit - counter,
    {
        let mut numbered: Vec<char> = Vec::new();
        push_all(&mut numbered, &stem);
        push_text(&mut numbered, " (");
        let digits = decimal_chars(counter);
        push_all(&mut numbered, &digits);
        push_text(&mut numbered, ")");
        push_all(&mut numbered, &ext);
        assert(numbered@ =~= numbered_name(name@, counter as nat));
        let candidate = join_chars(&dir_chars, &numbered);
        assert(candidate@ == place(dir@, file_name(source_path@), counter as nat));
        if !taken_has(taken, &candidate) {
            return Some(string_of(&candidate));
        }
        if counter == limit {
            proof {
                lemma_some_place_is_free(path_texts(taken@), dir@, name@);
            }
            return None;
        }
        counter = counter + 1;
    }
    proof {
        lemma_some_place_is_free(path_texts(taken@), dir@, name@);
    }
    None
}

} // verus!
