//! Paths on a device, whose parts are separated by slashes.
use vstd::prelude::*;
use crate::sequences::{lemma_filter_grows, lemma_filter_keeps_all, lemma_filter_places};
use crate::text::{chars_of, same_text, texts};

verus! {

/// The parts between separators.
pub open spec fn split(s: Seq<char>, separator: char) -> Seq<Seq<char>>
    decreases s.len(),
{
    if s.len() == 0 {
        seq![Seq::empty()]
    } else {
        let before = split(s.drop_last(), separator);
        if s.last() == separator {
            before.push(Seq::empty())
        } else {
            before.drop_last().push(before.last().push(s.last()))
        }
    }
}

/// The parts of a path that name something: neither empty nor a single dot.
pub open spec fn named_parts(path: Seq<char>) -> Seq<Seq<char>> {
    split(path, '/').filter(|part: Seq<char>| part.len() > 0 && part != "."@)
}

/// The directories that a path leads through, without the steps up.
pub open spec fn directory_parts(path: Seq<char>) -> Seq<Seq<char>> {
    let parts = named_parts(path);
    if parts.len() == 0 {
        Seq::empty()
    } else {
        parts.drop_last().filter(|part: Seq<char>| part != ".."@)
    }
}

/// Parts put together with slashes between them, and one before them in a path
/// from the root.
pub open spec fn joined(parts: Seq<Seq<char>>, rooted: bool) -> Seq<char>
    decreases parts.len(),
{
    if parts.len() == 0 {
        Seq::empty()
    } else if parts.len() == 1 {
        if rooted {
            seq!['/'] + parts[0]
        } else {
            parts[0]
        }
    } else {
        joined(parts.drop_last(), rooted).push('/') + parts.last()
    }
}

/// Whether a path starts at the root.
pub open spec fn is_rooted(path: Seq<char>) -> bool {
    path.len() > 0 && path[0] == '/'
}

/// What the first one, two and so on of some parts put together come to.
pub open spec fn prefixes(parts: Seq<Seq<char>>, rooted: bool) -> Seq<Seq<char>> {
    Seq::new(parts.len(), |i: int| joined(parts.take(i + 1), rooted))
}

/// The directories to make for a file to be written at a path, outermost first.
pub open spec fn directories_for(path: Seq<char>) -> Seq<Seq<char>> {
    prefixes(directory_parts(path), is_rooted(path))
}

proof fn lemma_prefixes_grow(parts: Seq<Seq<char>>, next: Seq<char>, rooted: bool)
    ensures
        prefixes(parts.push(next), rooted) == prefixes(parts, rooted).push(
            joined(parts.push(next), rooted),
        ),
{
    let grown = parts.push(next);
    assert(grown.take(grown.len() as int) =~= grown);
    assert forall|i: int| 0 <= i < parts.len() implies #[trigger] prefixes(grown, rooted)[i]
        == prefixes(parts, rooted)[i] by {
        assert(grown.take(i + 1) =~= parts.take(i + 1));
    }
    assert(prefixes(grown, rooted) =~= prefixes(parts, rooted).push(joined(grown, rooted)));
}

fn split_text(s: &str, separator: char) -> (r: Vec<String>)
    ensures
        texts(r@) == split(s@, separator),
        r.len() > 0,
{
    let x: Vec<char> = chars_of(s);
    let mut done: Vec<String> = Vec::new();
    let mut part = String::new();
    let mut i: usize = 0;
    assert(texts(done@).push(part@) =~= split(s@.take(0), separator));
    while i < x.len()
        invariant
            x@ == s@,
            i <= x.len(),
            texts(done@).push(part@) == split(s@.take(i as int), separator),
        decreases x.len() - i,
    {
        let ghost before = texts(done@).push(part@);
        let ghost had = done@;
        proof {
            assert(s@.take(i + 1).drop_last() =~= s@.take(i as int));
        }
        if x[i] == separator {
            done.push(part);
            part = String::new();
            assert(texts(done@) =~= before);
        } else {
            part.push(x[i]);
            assert(before.drop_last() =~= texts(had));
        }
        i += 1;
    }
    assert(s@.take(i as int) =~= s@);
    let ghost all = texts(done@).push(part@);
    done.push(part);
    assert(texts(done@) =~= all);
    done
}

/// The parts of a path that name something.
fn collect_named(path: &str) -> (r: Vec<String>)
    ensures
        texts(r@) == named_parts(path@),
{
    let parts: Vec<String> = split_text(path, '/');
    let ghost all = split(path@, '/');
    let ghost named = |part: Seq<char>| part.len() > 0 && part != "."@;
    let mut kept: Vec<String> = Vec::new();
    assert(texts(kept@) =~= all.take(0).filter(named)) by {
        reveal(Seq::filter);
    }
    for part in it: parts
        invariant
            it.seq() == parts@,
            all == texts(parts@),
            named == (|part: Seq<char>| part.len() > 0 && part != "."@),
            texts(kept@) == all.take(it.index()).filter(named),
    {
        let ghost before = kept@;
        proof {
            lemma_filter_grows(all, it.index(), named);
        }
        if !part.as_str().is_empty() && !same_text(part.as_str(), ".") {
            kept.push(part);
            assert(texts(kept@) =~= texts(before).push(part@));
        }
    }
    assert(all.take(all.len() as int) =~= all);
    kept
}

/// The directories to make, outermost first, for a file to be written at a path.
pub fn record_directories(path: &str) -> (r: Vec<String>)
    ensures
        texts(r@) == directories_for(path@),
{
    let parts: Vec<String> = collect_named(path);
    let mut directories: Vec<String> = Vec::new();
    if parts.len() == 0 {
        assert(texts(directories@) =~= directories_for(path@));
        return directories;
    }
    let rooted = path.unicode_len() > 0 && path.get_char(0) == '/';
    let last: usize = parts.len() - 1;
    let ghost leading = named_parts(path@).drop_last();
    let ghost down = |part: Seq<char>| part != ".."@;
    let ghost wanted = leading.filter(down);
    let mut current = String::new();
    let mut i: usize = 0;
    assert(leading.take(0).filter(down) =~= Seq::<Seq<char>>::empty()) by {
        reveal(Seq::filter);
    }
    assert(texts(directories@) =~= Seq::<Seq<char>>::empty());
    while i < last
        invariant
            last == parts.len() - 1,
            i <= last,
            rooted == is_rooted(path@),
            texts(parts@) == named_parts(path@),
            leading == named_parts(path@).drop_last(),
            down == (|part: Seq<char>| part != ".."@),
            current@ == joined(leading.take(i as int).filter(down), rooted),
            texts(directories@) == prefixes(leading.take(i as int).filter(down), rooted),
        decreases last - i,
    {
        let ghost done = leading.take(i as int).filter(down);
        let ghost before = directories@;
        proof {
            lemma_filter_grows(leading, i as int, down);
            assert(leading[i as int] == parts@[i as int]@);
        }
        if !same_text(parts[i].as_str(), "..") {
            let ghost grown = done.push(parts@[i as int]@);
            assert(grown.drop_last() =~= done);
            assert(texts(directories@).len() == prefixes(done, rooted).len());
            if directories.len() == 0 {
                if rooted {
                    current.push('/');
                }
            } else {
                current.push('/');
            }
            current.append(parts[i].as_str());
            directories.push(current.clone());
            proof {
                assert(current@ =~= joined(grown, rooted));
                lemma_prefixes_grow(done, parts@[i as int]@, rooted);
                assert(texts(directories@) =~= texts(before).push(current@));
            }
        }
        i += 1;
    }
    assert(leading.take(i as int) =~= leading);
    directories
}

// ---------------------------------------------------------------- laws

/// Each directory to make lies in the one before it: the one before, a slash, and
/// one more part.
pub proof fn lemma_directories_nest(path: Seq<char>, i: int)
    requires
        0 <= i,
        i + 1 < directories_for(path).len(),
    ensures
        directories_for(path)[i + 1] == directories_for(path)[i].push('/') + directory_parts(
            path,
        )[i + 1],
{
    let parts = directory_parts(path);
    assert(parts.take(i + 2).drop_last() =~= parts.take(i + 1));
    assert(parts.take(i + 2).last() == parts[i + 1]);
}

/// No directory to make is a step up or stays where it is.
pub proof fn lemma_directories_go_down(path: Seq<char>, i: int)
    requires
        0 <= i < directory_parts(path).len(),
    ensures
        directory_parts(path)[i] != ".."@,
        directory_parts(path)[i] != "."@,
        directory_parts(path)[i].len() > 0,
{
    let named = |part: Seq<char>| part.len() > 0 && part != "."@;
    let down = |part: Seq<char>| part != ".."@;
    let parts = named_parts(path);
    let leading = parts.drop_last();
    leading.lemma_filter_pred(down, i);
    assert(leading.filter(down).contains(directory_parts(path)[i]));
    leading.lemma_filter_contains_rev(down, directory_parts(path)[i]);
    let j = choose|j: int| 0 <= j < leading.len() && leading[j] == directory_parts(path)[i];
    split(path, '/').lemma_filter_pred(named, j);
    assert(parts[j] == leading[j]);
}

/// Parts put together again with a separator between each two.
pub open spec fn rejoined(parts: Seq<Seq<char>>, separator: char) -> Seq<char>
    decreases parts.len(),
{
    if parts.len() == 0 {
        Seq::empty()
    } else if parts.len() == 1 {
        parts[0]
    } else {
        rejoined(parts.drop_last(), separator).push(separator) + parts.last()
    }
}

/// Splitting loses nothing but the separators: put together again, the parts are the
/// text, and no part holds a separator.
pub proof fn lemma_split_parts(s: Seq<char>, separator: char)
    ensures
        split(s, separator).len() > 0,
        rejoined(split(s, separator), separator) == s,
        forall|i: int|
            0 <= i < split(s, separator).len() ==> !(#[trigger] split(s, separator)[i]).contains(
                separator,
            ),
    decreases s.len(),
{
    reveal_with_fuel(rejoined, 2);
    let parts = split(s, separator);
    if s.len() == 0 {
        assert(parts[0] =~= Seq::<char>::empty());
        assert(rejoined(parts, separator) =~= s);
    } else {
        let shorter = s.drop_last();
        let before = split(shorter, separator);
        lemma_split_parts(shorter, separator);
        if s.last() == separator {
            assert(parts.drop_last() =~= before);
            assert(parts.last() =~= Seq::<char>::empty());
            assert(rejoined(parts, separator) =~= shorter.push(separator));
            assert(shorter.push(separator) =~= s);
            assert forall|i: int| 0 <= i < parts.len() implies !(#[trigger] parts[i]).contains(
                separator,
            ) by {
                if i < before.len() {
                    assert(parts[i] == before[i]);
                }
            }
        } else {
            assert(parts.drop_last() =~= before.drop_last());
            assert(parts.last() == before.last().push(s.last()));
            if before.len() == 1 {
                assert(rejoined(parts, separator) =~= shorter.push(s.last()));
            } else {
                assert(rejoined(parts, separator) =~= rejoined(before, separator).push(s.last()));
            }
            assert(shorter.push(s.last()) =~= s);
            assert forall|i: int| 0 <= i < parts.len() implies !(#[trigger] parts[i]).contains(
                separator,
            ) by {
                if i < before.len() - 1 {
                    assert(parts[i] == before[i]);
                } else {
                    let last = before[before.len() - 1];
                    assert(!last.contains(separator));
                    if parts[i].contains(separator) {
                        let k = choose|k: int| 0 <= k < parts[i].len() && parts[i][k] == separator;
                        assert(last[k] == separator);
                    }
                }
            }
        }
    }
}

/// A part after a separator is a part of its own.
proof fn lemma_split_one_more(start: Seq<char>, part: Seq<char>, separator: char)
    requires
        !part.contains(separator),
    ensures
        split(start.push(separator) + part, separator) == split(start, separator).push(part),
    decreases part.len(),
{
    let whole = start.push(separator) + part;
    lemma_split_parts(start, separator);
    if part.len() == 0 {
        assert(whole =~= start.push(separator));
        assert(whole.drop_last() =~= start);
        assert(part =~= Seq::empty());
    } else {
        let shorter = part.drop_last();
        assert(!shorter.contains(separator)) by {
            if shorter.contains(separator) {
                let k = choose|k: int| 0 <= k < shorter.len() && shorter[k] == separator;
                assert(part[k] == separator);
            }
        }
        assert(part.last() == part[part.len() - 1]);
        assert(part.contains(part[part.len() - 1]));
        lemma_split_one_more(start, shorter, separator);
        assert(whole.drop_last() =~= start.push(separator) + shorter);
        let before = split(start, separator).push(shorter);
        assert(before.drop_last() =~= split(start, separator));
        assert(shorter.push(part.last()) =~= part);
    }
}

proof fn lemma_split_single(part: Seq<char>, separator: char)
    requires
        !part.contains(separator),
    ensures
        split(part, separator) == seq![part],
    decreases part.len(),
{
    if part.len() == 0 {
        assert(part =~= Seq::empty());
    } else {
        let shorter = part.drop_last();
        assert(!shorter.contains(separator)) by {
            if shorter.contains(separator) {
                let k = choose|k: int| 0 <= k < shorter.len() && shorter[k] == separator;
                assert(part[k] == separator);
            }
        }
        assert(part.contains(part[part.len() - 1]));
        lemma_split_single(shorter, separator);
        assert(shorter.push(part.last()) =~= part);
        assert(split(part, separator) =~= seq![part]);
    }
}

/// Whether a part names a directory or a file: it is not empty, no step in place and
/// no step up, and holds no slash.
pub open spec fn is_name(part: Seq<char>) -> bool {
    part.len() > 0 && part != "."@ && part != ".."@ && !part.contains('/')
}

proof fn lemma_split_joined(parts: Seq<Seq<char>>, rooted: bool)
    requires
        parts.len() > 0,
        forall|i: int| 0 <= i < parts.len() ==> is_name(#[trigger] parts[i]),
    ensures
        split(joined(parts, rooted), '/') == (if rooted {
            seq![Seq::<char>::empty()] + parts
        } else {
            parts
        }),
        is_rooted(joined(parts, rooted)) == rooted,
        joined(parts, rooted).len() > 0,
    decreases parts.len(),
{
    assert(is_name(parts[0]));
    if parts.len() == 1 {
        if rooted {
            let none = Seq::<char>::empty();
            lemma_split_single(none, '/');
            lemma_split_one_more(none, parts[0], '/');
            assert(none.push('/') + parts[0] =~= seq!['/'] + parts[0]);
            assert(seq![none].push(parts[0]) =~= seq![none] + parts);
        } else {
            lemma_split_single(parts[0], '/');
            assert(seq![parts[0]] =~= parts);
            assert(parts[0].contains(parts[0][0]));
        }
    } else {
        let shorter = parts.drop_last();
        assert forall|i: int| 0 <= i < shorter.len() implies is_name(#[trigger] shorter[i]) by {
            assert(shorter[i] == parts[i]);
        }
        lemma_split_joined(shorter, rooted);
        assert(is_name(parts[parts.len() - 1]));
        lemma_split_one_more(joined(shorter, rooted), parts.last(), '/');
        assert(shorter.push(parts.last()) =~= parts);
        assert((seq![Seq::<char>::empty()] + shorter).push(parts.last()) =~= seq![
            Seq::<char>::empty(),
        ] + parts);
        assert(joined(parts, rooted)[0] == joined(shorter, rooted)[0]);
    }
}

/// For a path of plain names the directories to make are those of all its beginnings
/// but the whole path: the first name alone, the first two, and so on, from the root
/// where the path is.
pub proof fn lemma_directories_of_plain_path(parts: Seq<Seq<char>>, rooted: bool)
    requires
        parts.len() > 0,
        forall|i: int| 0 <= i < parts.len() ==> is_name(#[trigger] parts[i]),
    ensures
        directories_for(joined(parts, rooted)).len() == parts.len() - 1,
        forall|i: int|
            0 <= i < parts.len() - 1 ==> #[trigger] directories_for(joined(parts, rooted))[i]
                == joined(parts.take(i + 1), rooted),
{
    let path = joined(parts, rooted);
    let named = |part: Seq<char>| part.len() > 0 && part != "."@;
    let down = |part: Seq<char>| part != ".."@;
    lemma_split_joined(parts, rooted);
    assert forall|i: int| 0 <= i < parts.len() implies named(#[trigger] parts[i]) by {
        assert(is_name(parts[i]));
    }
    lemma_filter_keeps_all(parts, named);
    if rooted {
        let none = seq![Seq::<char>::empty()];
        Seq::filter_distributes_over_add(none, parts, named);
        assert forall|i: int| 0 <= i < none.len() implies !named(#[trigger] none[i]) by {}
        none.lemma_all_neg_filter_empty(named);
        assert(none.filter(named) + parts =~= parts);
    }
    assert(named_parts(path) == parts);
    let directories = parts.drop_last();
    assert forall|i: int| 0 <= i < directories.len() implies down(#[trigger] directories[i]) by {
        assert(is_name(parts[i]));
    }
    lemma_filter_keeps_all(directories, down);
    assert forall|i: int| 0 <= i < parts.len() - 1 implies #[trigger] directories_for(path)[i]
        == joined(parts.take(i + 1), rooted) by {
        assert(directories.take(i + 1) =~= parts.take(i + 1));
    }
}

/// Names are put together with a slash between each two and, from the root, one
/// before the first.
pub proof fn lemma_joined_names(parts: Seq<Seq<char>>, next: Seq<char>)
    requires
        parts.len() > 0,
    ensures
        joined(seq![next], true) == seq!['/'] + next,
        joined(seq![next], false) == next,
        joined(parts.push(next), true) == joined(parts, true) + seq!['/'] + next,
        joined(parts.push(next), false) == joined(parts, false) + seq!['/'] + next,
{
    reveal_with_fuel(joined, 2);
    assert(parts.push(next).drop_last() =~= parts);
    assert(joined(parts, true).push('/') + next =~= joined(parts, true) + seq!['/'] + next);
    assert(joined(parts, false).push('/') + next =~= joined(parts, false) + seq!['/'] + next);
}

/// What a path leads through is each of its parts that names something below where
/// it stands and has something named after it.
pub proof fn lemma_directories_led_through(path: Seq<char>, part: Seq<char>)
    ensures
        directory_parts(path).contains(part) <==> exists|i: int, k: int|
            {
                &&& 0 <= i < k < split(path, '/').len()
                &&& #[trigger] split(path, '/')[i] == part
                &&& part.len() > 0 && part != "."@ && part != ".."@
                &&& (#[trigger] split(path, '/')[k]).len() > 0
                &&& split(path, '/')[k] != "."@
            },
{
    let all = split(path, '/');
    let named = |part: Seq<char>| part.len() > 0 && part != "."@;
    let down = |part: Seq<char>| part != ".."@;
    let places = lemma_filter_places(all, named);
    let parts = named_parts(path);
    if parts.len() > 0 {
        let directories = parts.drop_last();
        let inner = lemma_filter_places(directories, down);
        if directory_parts(path).contains(part) {
            let j = choose|j: int|
                0 <= j < directory_parts(path).len() && directory_parts(path)[j] == part;
            let m = inner[j];
            let last = parts.len() - 1;
            assert(directories[m] == part);
            assert(all[places[m]] == part);
            assert(named(all[places[m]]));
            assert(named(all[places[last]]));
            assert(places[m] < places[last]);
        }
    }
    if exists|i: int, k: int|
        {
            &&& 0 <= i < k < all.len()
            &&& #[trigger] all[i] == part
            &&& part.len() > 0 && part != "."@ && part != ".."@
            &&& (#[trigger] all[k]).len() > 0
            &&& all[k] != "."@
        } {
        let (i, k) = choose|i: int, k: int|
            {
                &&& 0 <= i < k < all.len()
                &&& #[trigger] all[i] == part
                &&& part.len() > 0 && part != "."@ && part != ".."@
                &&& (#[trigger] all[k]).len() > 0
                &&& all[k] != "."@
            };
        assert(named(all[i]) && named(all[k]));
        assert(places.contains(i) && places.contains(k));
        let a = choose|a: int| 0 <= a < places.len() && places[a] == i;
        let b = choose|b: int| 0 <= b < places.len() && places[b] == k;
        assert(a < b) by {
            if b <= a {
                assert(places[b] <= places[a]);
            }
        }
        let directories = parts.drop_last();
        let inner = lemma_filter_places(directories, down);
        assert(directories[a] == part);
        assert(down(directories[a]));
        assert(inner.contains(a));
        let j = choose|j: int| 0 <= j < inner.len() && inner[j] == a;
        assert(directory_parts(path)[j] == part);
    }
}

} // verus!
