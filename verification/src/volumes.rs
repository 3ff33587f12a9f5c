//! The names of volumes and archives, and the volumes that a directory holds.

use vstd::prelude::*;
use vstd::utf8::{encode_scalar, encode_utf8, encode_utf8_decode_utf8};
use crate::clock::{CivilTime, ARCHIVE_SUFFIX};
use crate::lists;
use crate::paths::{entry_path, SEPARATOR};
use crate::refusal::{Failure, Refusal};
use crate::sorting::{sort_by_name, sorts, Named};
use crate::text;
use crate::text::ends_with;

verus! {

/// Whether `name` can be the name of a volume: an entry of a directory that is
/// neither the directory itself nor the one above it.
pub open spec fn is_volume_name(name: Seq<char>) -> bool {
    &&& name.len() > 0
    &&& name != "."@
    &&& name != ".."@
    &&& !name.contains('/')
    &&& !name.contains('\\')
}

/// Refuses what cannot be the name of a volume.
pub fn validate_volume_name(volume: &str) -> (r: Result<(), Refusal>)
    ensures
        r is Ok <==> is_volume_name(volume@),
        r matches Err(refusal) ==> refusal matches Refusal::InvalidVolumeName { volume: v } && v@
            == volume@,
{
    if volume.is_empty() || text::equal(volume, ".") || text::equal(volume, "..")
        || text::has_char(volume, '/') || text::has_char(volume, '\\') {
        return Err(Refusal::InvalidVolumeName { volume: volume.to_owned() });
    }
    Ok(())
}

/// The encoding of a character other than `/` holds no separator.
proof fn lemma_no_separator_in_char(c: char)
    requires
        c != '/',
    ensures
        !encode_scalar(c as u32).contains(SEPARATOR),
{
    let n = c as u32;
    assert(n != 0x2f);
    assert(n <= 0x7f ==> (n & 0x7f) as u8 == n) by (bit_vector);
    assert((0xC0 | ((n >> 6) & 0x1F) as u8) >= 0x80u8) by (bit_vector);
    assert((0xE0 | ((n >> 12) & 0x0F) as u8) >= 0x80u8) by (bit_vector);
    assert((0xF0 | ((n >> 18) & 0x7) as u8) >= 0x80u8) by (bit_vector);
    assert((0x80 | (n & 0x3F) as u8) >= 0x80u8) by (bit_vector);
    assert((0x80 | ((n >> 6) & 0x3F) as u8) >= 0x80u8) by (bit_vector);
    assert((0x80 | ((n >> 12) & 0x3F) as u8) >= 0x80u8) by (bit_vector);
}

/// The encoding of a text without `/` holds no separator.
pub proof fn lemma_no_separator(name: Seq<char>)
    requires
        !name.contains('/'),
    ensures
        !encode_utf8(name).contains(SEPARATOR),
        encode_utf8(name).len() >= name.len(),
    decreases name.len(),
{
    if name.len() > 0 {
        let rest = name.drop_first();
        assert(!rest.contains('/')) by {
            if rest.contains('/') {
                let i = choose|i: int| 0 <= i < rest.len() && rest[i] == '/';
                assert(name[i + 1] == '/');
            }
        }
        assert(name.contains(name[0]));
        lemma_no_separator_in_char(name[0]);
        lemma_no_separator(rest);
        let first = encode_scalar(name[0] as u32);
        let behind = encode_utf8(rest);
        assert forall|i: int| 0 <= i < (first + behind).len() implies (first + behind)[i]
            != SEPARATOR by {
            if i < first.len() {
                assert(first.contains(first[i]));
            } else {
                assert(behind.contains(behind[i - first.len()]));
            }
        }
    }
}

/// The directory of a volume is an entry of the directory of the volumes: its
/// path is that directory's, with a separator if it has none yet, and a name
/// without separators.
pub proof fn law_volumes_lie_in_the_root(root: Seq<u8>, volume: Seq<char>)
    requires
        is_volume_name(volume),
    ensures
        !encode_utf8(volume).contains(SEPARATOR),
        entry_path(root, volume) == if root.len() == 0 || root.last() == SEPARATOR {
            root + encode_utf8(volume)
        } else {
            root + seq![SEPARATOR] + encode_utf8(volume)
        },
{
    lemma_no_separator(volume);
    let name = encode_utf8(volume);
    if name.len() > 0 {
        assert(name.contains(name[0]));
    }
}

/// Two volumes do not share a directory.
pub proof fn law_volumes_have_directories_of_their_own(
    root: Seq<u8>,
    a: Seq<char>,
    b: Seq<char>,
)
    requires
        is_volume_name(a),
        is_volume_name(b),
        entry_path(root, a) == entry_path(root, b),
    ensures
        a == b,
{
    law_volumes_lie_in_the_root(root, a);
    law_volumes_lie_in_the_root(root, b);
    let front = if root.len() == 0 || root.last() == SEPARATOR {
        root
    } else {
        root + seq![SEPARATOR]
    };
    let n = front.len() as int;
    assert(entry_path(root, a).skip(n) == encode_utf8(a));
    assert(entry_path(root, b).skip(n) == encode_utf8(b));
    encode_utf8_decode_utf8(a);
    encode_utf8_decode_utf8(b);
}

/// Tells whether `name` is the name of an archive.
pub fn is_archive_name(name: &str) -> (b: bool)
    ensures
        b == ends_with(name@, ARCHIVE_SUFFIX@),
{
    text::has_suffix(name, ARCHIVE_SUFFIX)
}

/// What a backup is stored as has the name of an archive.
pub proof fn law_backups_are_called_as_archives_are(t: CivilTime)
    ensures
        ends_with(t.archive_name(), ARCHIVE_SUFFIX@),
{
    assert(t.archive_name().skip(t.stamp().len() as int) == ARCHIVE_SUFFIX@);
}

/// One step of reading the directory of the volumes.
#[derive(Debug)]
pub enum Found<F> {
    /// An entry.
    Entry { name: String, is_dir: bool },
    /// The entry could not be read.
    Failed(F),
}

/// Whether what was found ends the search for volumes: it could not be read, or
/// it is a directory that cannot be a volume.
pub open spec fn offends<F>(found: Found<F>) -> bool {
    match found {
        Found::Entry { name, is_dir } => is_dir && !is_volume_name(name@),
        Found::Failed(_) => true,
    }
}

/// Whether `failure` reports what was found.
pub open spec fn reports<F>(failure: Failure<F>, found: Found<F>) -> bool {
    match found {
        Found::Entry { name, .. } => failure matches Failure::Refused(
            Refusal::InvalidVolumeName { volume },
        ) && volume@ == name@,
        Found::Failed(f) => failure == Failure::Outside(f),
    }
}

/// The names of the directories among what was found.
pub open spec fn directories<F>(found: Seq<Found<F>>) -> Seq<String>
    decreases found.len(),
{
    if found.len() == 0 {
        Seq::empty()
    } else {
        let before = directories(found.drop_last());
        match found.last() {
            Found::Entry { name, is_dir } => if is_dir {
                before.push(name)
            } else {
                before
            },
            Found::Failed(_) => before,
        }
    }
}

/// Finds the volumes among the entries of a directory, which are its
/// directories, and puts them in the order of their names. The first entry that
/// cannot be read or is a directory without the name of a volume ends the
/// search.
pub fn discover_volumes<F>(found: Vec<Found<F>>) -> (r: Result<Vec<String>, Failure<F>>)
    ensures
        match r {
            Ok(volumes) => {
                &&& forall|i: int| 0 <= i < found@.len() ==> !offends(#[trigger] found@[i])
                &&& sorts(directories(found@), volumes@)
                &&& forall|i: int|
                    0 <= i < volumes@.len() ==> is_volume_name((#[trigger] volumes@[i])@)
            },
            Err(failure) => exists|i: int|
                {
                    &&& 0 <= i < found@.len()
                    &&& offends(#[trigger] found@[i])
                    &&& reports(failure, found@[i])
                    &&& forall|j: int| 0 <= j < i ==> !offends(#[trigger] found@[j])
                },
        },
{
    let ghost all = found@;
    let mut rest = found;
    let mut volumes: Vec<String> = Vec::new();
    let ghost mut done: int = 0;
    assert(all.skip(0) == all);
    assert(all.take(0) == Seq::<Found<F>>::empty());
    while rest.len() > 0
        invariant
            0 <= done <= all.len(),
            all == found@,
            rest@ == all.skip(done),
            volumes@ == directories(all.take(done)),
            forall|i: int| 0 <= i < done ==> !offends(#[trigger] all[i]),
            forall|i: int| 0 <= i < volumes@.len() ==> is_volume_name((#[trigger] volumes@[i])@),
        decreases rest.len(),
    {
        let next = rest.remove(0);
        proof {
            lists::lemma_take_next(all, done);
        }
        match next {
            Found::Entry { name, is_dir } => {
                if is_dir {
                    match validate_volume_name(name.as_str()) {
                        Ok(()) => {
                            volumes.push(name);
                        },
                        Err(refusal) => {
                            assert(reports(Failure::Refused(refusal), found@[done]));
                            return Err(Failure::Refused(refusal));
                        },
                    }
                }
            },
            Found::Failed(f) => {
                assert(reports(Failure::Outside(f), found@[done]));
                return Err(Failure::Outside(f));
            },
        }
        proof {
            done = done + 1;
        }
    }
    assert(all.take(done) == all);
    let ghost unsorted = volumes@;
    let volumes = sort_by_name(volumes);
    assert forall|i: int| 0 <= i < volumes@.len() implies is_volume_name(
        (#[trigger] volumes@[i])@,
    ) by {
        broadcast use vstd::seq_lib::group_to_multiset_ensures;

        assert(volumes@.contains(volumes@[i]));
        assert(unsorted.to_multiset().count(volumes@[i]) > 0);
        assert(unsorted.contains(volumes@[i]));
    }
    Ok(volumes)
}

/// Whether `name` names one entry of a directory: it is not empty, neither one
/// dot nor two, and without slashes and backslashes.
pub open spec fn names_one_entry(name: Seq<char>) -> bool {
    &&& name.len() > 0
    &&& name != seq!['.']
    &&& name != seq!['.', '.']
    &&& forall|i: int| 0 <= i < name.len() ==> #[trigger] name[i] != '/' && name[i] != '\\'
}

/// Whether `name` has the suffix of archives.
pub open spec fn is_called_as_archives_are(name: Seq<char>) -> bool {
    name.len() >= 7 && name.skip(name.len() - 7) == seq!['.', 't', 'a', 'r', '.', 'x', 'z']
}

/// The names of volumes are those of entries.
pub proof fn lemma_volume_names(name: Seq<char>)
    ensures
        is_volume_name(name) <==> names_one_entry(name),
{
    reveal_strlit(".");
    reveal_strlit("..");
    assert("."@ =~= seq!['.']);
    assert(".."@ =~= seq!['.', '.']);
    if is_volume_name(name) {
        assert forall|i: int| 0 <= i < name.len() implies #[trigger] name[i] != '/' && name[i]
            != '\\' by {
            assert(name.contains(name[i]));
        }
    }
}

/// The suffix of archives.
pub proof fn lemma_archive_suffix(name: Seq<char>)
    ensures
        ends_with(name, ARCHIVE_SUFFIX@) <==> is_called_as_archives_are(name),
{
    reveal_strlit(".tar.xz");
    assert(ARCHIVE_SUFFIX@ =~= seq!['.', 't', 'a', 'r', '.', 'x', 'z']);
}

/// A name is taken for that of a volume exactly if it names one entry of a
/// directory.
pub proof fn law_volumes_are_named_as_entries(volume: &str, r: Result<(), Refusal>)
    requires
        call_ensures(validate_volume_name, (volume,), r),
    ensures
        r is Ok <==> names_one_entry(volume@),
        r matches Err(refusal) ==> refusal matches Refusal::InvalidVolumeName { volume: v } && v@
            == volume@,
{
    lemma_volume_names(volume@);
}

/// A name is taken for that of an archive exactly if it ends in `.tar.xz`.
pub proof fn law_archives_have_their_suffix(name: &str, b: bool)
    requires
        call_ensures(is_archive_name, (name,), b),
    ensures
        b <==> is_called_as_archives_are(name@),
{
    lemma_archive_suffix(name@);
}

/// Tells entries that are directories of the name `name` from others.
pub open spec fn finds_directory<F>(name: Seq<char>) -> spec_fn(Found<F>) -> bool {
    |found: Found<F>| found matches Found::Entry { name: n, is_dir } && is_dir && n@ == name
}

/// Tells the text `name` from others.
pub open spec fn reads(name: Seq<char>) -> spec_fn(String) -> bool {
    |text: String| text@ == name
}

/// The directories are counted as they were found.
proof fn lemma_directories_count<F>(found: Seq<Found<F>>, name: Seq<char>)
    ensures
        directories(found).filter(reads(name)).len() == found.filter(
            finds_directory::<F>(name),
        ).len(),
    decreases found.len(),
{
    if found.len() == 0 {
        assert(found.filter(finds_directory::<F>(name)) =~= Seq::<Found<F>>::empty());
    } else {
        let front = found.drop_last();
        lemma_directories_count(front, name);
        assert(found =~= front.push(found.last()));
        lists::lemma_filter_push(front, found.last(), finds_directory::<F>(name));
        if let Found::Entry { name: n, is_dir } = found.last() {
            lists::lemma_filter_push(directories(front), n, reads(name));
        }
    }
}

/// Every directory that was found is a volume: a name stands among the volumes as
/// often as directories of that name were found, and the volumes are in the order
/// of their names. This is so exactly where everything could be read and every
/// directory has the name of an entry.
pub proof fn law_every_directory_is_a_volume<F>(
    found: Vec<Found<F>>,
    volumes: Vec<String>,
    name: Seq<char>,
)
    requires
        call_ensures(discover_volumes::<F>, (found,), Ok(volumes)),
    ensures
        volumes@.filter(reads(name)).len() == found@.filter(finds_directory::<F>(name)).len(),
        volumes@.filter(reads(name)).len() > 0 <==> exists|i: int|
            0 <= i < found@.len() && (#[trigger] found@[i] matches Found::Entry { name: n, is_dir }
                && is_dir && n@ == name),
        forall|i: int, j: int|
            0 <= i < j < volumes@.len() ==> text::in_order(
                (#[trigger] volumes@[i])@,
                (#[trigger] volumes@[j])@,
            ),
        forall|i: int|
            0 <= i < found@.len() ==> match #[trigger] found@[i] {
                Found::Entry { name, is_dir } => is_dir ==> names_one_entry(name@),
                Found::Failed(_) => false,
            },
{
    lemma_directories_count(found@, name);
    lists::lemma_same_things(volumes@, directories(found@), reads(name));
    let p = finds_directory::<F>(name);
    let passed = found@.filter(p);
    if passed.len() > 0 {
        found@.lemma_filter_pred(p, 0);
        found@.lemma_filter_contains_rev(p, passed[0]);
        assert(found@.contains(passed[0]));
        let i = choose|i: int| 0 <= i < found@.len() && found@[i] == passed[0];
        assert(p(found@[i]));
    }
    assert forall|i: int|
        0 <= i < found@.len() && (#[trigger] found@[i] matches Found::Entry { name: n, is_dir }
            && is_dir && n@ == name) implies passed.len() > 0 by {
        assert(p(found@[i]));
        found@.lemma_filter_contains(p, i);
    }
    assert forall|i: int, j: int| 0 <= i < j < volumes@.len() implies text::in_order(
        (#[trigger] volumes@[i])@,
        (#[trigger] volumes@[j])@,
    ) by {
        assert(volumes@[i].key() == volumes@[i]@);
        assert(volumes@[j].key() == volumes@[j]@);
    }
    assert forall|i: int| 0 <= i < found@.len() implies match #[trigger] found@[i] {
        Found::Entry { name, is_dir } => is_dir ==> names_one_entry(name@),
        Found::Failed(_) => false,
    } by {
        assert(!offends(found@[i]));
        if let Found::Entry { name, .. } = found@[i] {
            lemma_volume_names(name@);
        }
    }
}

/// Where the search for volumes ends without any, the first entry that could not
/// be read, or is a directory without the name of an entry, is what it reports.
pub proof fn law_the_first_offence_is_reported<F>(found: Vec<Found<F>>, failure: Failure<F>)
    requires
        call_ensures(discover_volumes::<F>, (found,), Err(failure)),
    ensures
        exists|i: int|
            {
                &&& 0 <= i < found@.len()
                &&& match #[trigger] found@[i] {
                    Found::Entry { name, is_dir } => {
                        &&& is_dir
                        &&& !names_one_entry(name@)
                        &&& failure matches Failure::Refused(Refusal::InvalidVolumeName { volume })
                        &&& volume@ == name@
                    },
                    Found::Failed(f) => failure == Failure::Outside(f),
                }
                &&& forall|j: int|
                    0 <= j < i ==> match #[trigger] found@[j] {
                        Found::Entry { name, is_dir } => is_dir ==> names_one_entry(name@),
                        Found::Failed(_) => false,
                    }
            },
{
    let i = choose|i: int|
        {
            &&& 0 <= i < found@.len()
            &&& offends(#[trigger] found@[i])
            &&& reports(failure, found@[i])
            &&& forall|j: int| 0 <= j < i ==> !offends(#[trigger] found@[j])
        };
    assert(offends(found@[i]));
    if let Found::Entry { name, .. } = found@[i] {
        lemma_volume_names(name@);
    }
    assert forall|j: int| 0 <= j < i implies match #[trigger] found@[j] {
        Found::Entry { name, is_dir } => is_dir ==> names_one_entry(name@),
        Found::Failed(_) => false,
    } by {
        assert(!offends(found@[j]));
        if let Found::Entry { name, .. } = found@[j] {
            lemma_volume_names(name@);
        }
    }
}

} // verus!
