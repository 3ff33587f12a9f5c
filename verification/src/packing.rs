//! What goes into an archive: everything below the directory of a volume.
//!
//! [`append_directory_contents`] begins, and [`Packing::resume`] goes on from
//! what came of each request.

use vstd::prelude::*;

verus! {

/// How hard archives are compressed.
pub const COMPRESSION_LEVEL: u32 = 6;

/// The permissions of a symbolic link in an archive.
pub const LINK_MODE: u32 = 0o777;

/// What an archive says of a symbolic link besides its name and where it leads.
#[derive(Clone, Copy, Debug, PartialEq, Eq, Structural)]
pub struct LinkHeader {
    pub size: u64,
    pub mode: u32,
    /// When the link was changed, in seconds since the start of 1970.
    pub mtime: u64,
}

/// Puts the time of the last change into a header. What was changed before the
/// start of 1970 counts as changed then.
pub fn set_header_mtime(header: &mut LinkHeader, modified: i64)
    ensures
        final(header).mtime == if modified < 0 {
            0
        } else {
            modified as int
        },
        final(header).size == old(header).size,
        final(header).mode == old(header).mode,
{
    header.mtime = if modified < 0 {
        0
    } else {
        modified as u64
    };
}

/// The header of a symbolic link that was changed `modified` seconds after the
/// start of 1970, if that is known.
pub open spec fn header_of_link(modified: Option<i64>) -> LinkHeader {
    LinkHeader {
        size: 0,
        mode: LINK_MODE,
        mtime: match modified {
            Some(seconds) => if seconds < 0 {
                0
            } else {
                seconds as u64
            },
            None => 0,
        },
    }
}

/// Makes the header of a symbolic link.
pub fn link_header(modified: Option<i64>) -> (header: LinkHeader)
    ensures
        header == header_of_link(modified),
{
    let mut header = LinkHeader { size: 0, mode: LINK_MODE, mtime: 0 };
    match modified {
        Some(seconds) => {
            set_header_mtime(&mut header, seconds);
        },
        None => {},
    }
    header
}

/// What an entry is, without following it if it is a link.
#[derive(Clone, Copy, Debug, PartialEq, Eq, Structural)]
pub enum EntryKind {
    Directory,
    File,
    /// A symbolic link and, if it is known, when it was changed, in seconds
    /// since the start of 1970.
    Link { modified: Option<i64> },
    /// Something else, such as a socket.
    Other,
}

/// What the program is to do for an archive.
#[derive(Debug)]
pub enum PackRequest {
    /// Go on to the next entry: the directory itself first, then what is below
    /// it, a directory before what it holds, and in the order of the names
    /// within each.
    NextEntry,
    /// Find out what the current entry is.
    Inspect,
    /// Put the current entry, a directory, into the archive.
    AppendDirectory { relative: Vec<u8> },
    /// Put the current entry, a file, into the archive with what it holds.
    AppendFile { relative: Vec<u8> },
    /// Put the current entry, a symbolic link, into the archive.
    AppendLink { relative: Vec<u8>, header: LinkHeader },
}

/// What a [`PackRequest`] says.
pub enum PackAsk {
    NextEntry,
    Inspect,
    AppendDirectory { relative: Seq<u8> },
    AppendFile { relative: Seq<u8> },
    AppendLink { relative: Seq<u8>, header: LinkHeader },
}

impl View for PackRequest {
    type V = PackAsk;

    open spec fn view(&self) -> PackAsk {
        match *self {
            PackRequest::NextEntry => PackAsk::NextEntry,
            PackRequest::Inspect => PackAsk::Inspect,
            PackRequest::AppendDirectory { relative } => PackAsk::AppendDirectory {
                relative: relative@,
            },
            PackRequest::AppendFile { relative } => PackAsk::AppendFile { relative: relative@ },
            PackRequest::AppendLink { relative, header } => PackAsk::AppendLink {
                relative: relative@,
                header,
            },
        }
    }
}

/// What came of a [`PackRequest`].
#[derive(Debug)]
pub enum PackReply<F> {
    /// The path of the next entry as seen from the directory, which is empty for
    /// the directory itself.
    Entry { relative: Vec<u8> },
    /// There are no more entries.
    End,
    /// What the current entry is.
    Kind(EntryKind),
    /// It was done.
    Done,
    /// It failed.
    Failed(F),
}

/// What a [`PackReply`] says.
pub enum PackAnswer<F> {
    Entry { relative: Seq<u8> },
    End,
    Kind(EntryKind),
    Done,
    Failed(F),
}

impl<F> View for PackReply<F> {
    type V = PackAnswer<F>;

    open spec fn view(&self) -> PackAnswer<F> {
        match *self {
            PackReply::Entry { relative } => PackAnswer::Entry { relative: relative@ },
            PackReply::End => PackAnswer::End,
            PackReply::Kind(kind) => PackAnswer::Kind(kind),
            PackReply::Done => PackAnswer::Done,
            PackReply::Failed(f) => PackAnswer::Failed(f),
        }
    }
}

/// The packing of an archive, by the request that was made last.
#[derive(Debug)]
enum PackStage {
    Walk,
    Inspect { relative: Vec<u8> },
    Append,
}

/// The packing of an archive, by the request that was made last.
pub enum PackState {
    /// The next entry was asked for.
    Walk,
    /// It was asked what the entry of this path is.
    Inspect { relative: Seq<u8> },
    /// An entry had to be put into the archive.
    Append,
}

/// The packing of an archive, which waits for what comes of its last request.
#[derive(Debug)]
pub struct Packing {
    stage: PackStage,
}

impl View for Packing {
    type V = PackState;

    closed spec fn view(&self) -> PackState {
        match self.stage {
            PackStage::Walk => PackState::Walk,
            PackStage::Inspect { relative } => PackState::Inspect { relative: relative@ },
            PackStage::Append => PackState::Append,
        }
    }
}

/// Where the packing of an archive stands.
#[derive(Debug)]
pub enum PackProgress<F> {
    /// A request waits to be carried out.
    Waiting(Packing, PackRequest),
    /// All is in the archive.
    Finished,
    /// It came to nothing.
    Stopped(F),
}

/// What happens next in the packing of an archive.
pub enum PackStep<F> {
    /// A request is made.
    Ask(PackState, PackAsk),
    /// All is in the archive.
    Finish,
    /// It came to nothing.
    Stop(F),
}

/// Whether `progress` is what `step` says.
pub open spec fn packs<F>(progress: PackProgress<F>, step: PackStep<F>) -> bool {
    match step {
        PackStep::Ask(state, ask) => progress matches PackProgress::Waiting(packing, request)
            && packing@ == state && request@ == ask,
        PackStep::Finish => progress is Finished,
        PackStep::Stop(f) => progress matches PackProgress::Stopped(e) && e == f,
    }
}

impl PackState {
    /// Whether `answer` is one to the request that was made last.
    pub open spec fn is_answered_by<F>(self, answer: PackAnswer<F>) -> bool {
        answer is Failed || match self {
            PackState::Walk => answer is Entry || answer is End,
            PackState::Inspect { .. } => answer is Kind,
            PackState::Append => answer is Done,
        }
    }

    /// What happens next: the directory itself and what is neither a directory
    /// nor a file nor a link are passed over.
    pub open spec fn after<F>(self, answer: PackAnswer<F>) -> PackStep<F> {
        let walk = PackStep::Ask(PackState::Walk, PackAsk::NextEntry);
        match (self, answer) {
            (_, PackAnswer::Failed(f)) => PackStep::Stop(f),
            (PackState::Walk, PackAnswer::Entry { relative }) => if relative.len() == 0 {
                walk
            } else {
                PackStep::Ask(PackState::Inspect { relative }, PackAsk::Inspect)
            },
            (PackState::Inspect { relative }, PackAnswer::Kind(kind)) => match kind {
                EntryKind::Directory => PackStep::Ask(
                    PackState::Append,
                    PackAsk::AppendDirectory { relative },
                ),
                EntryKind::File => PackStep::Ask(
                    PackState::Append,
                    PackAsk::AppendFile { relative },
                ),
                EntryKind::Link { modified } => PackStep::Ask(
                    PackState::Append,
                    PackAsk::AppendLink { relative, header: header_of_link(modified) },
                ),
                EntryKind::Other => walk,
            },
            (PackState::Append, _) => walk,
            _ => PackStep::Finish,
        }
    }
}

/// Begins to put what a directory holds into an archive.
pub fn append_directory_contents() -> (r: (Packing, PackRequest))
    ensures
        r.0@ == PackState::Walk,
        r.1@ == PackAsk::NextEntry,
{
    (Packing { stage: PackStage::Walk }, PackRequest::NextEntry)
}

impl Packing {
    /// Goes on to the next entry.
    fn walk<F>() -> (progress: PackProgress<F>)
        ensures
            packs(progress, PackStep::Ask(PackState::Walk, PackAsk::NextEntry)),
    {
        PackProgress::Waiting(Packing { stage: PackStage::Walk }, PackRequest::NextEntry)
    }

    /// Has an entry put into the archive.
    fn append<F>(request: PackRequest) -> (progress: PackProgress<F>)
        ensures
            packs(progress, PackStep::Ask(PackState::Append, request@)),
    {
        PackProgress::Waiting(Packing { stage: PackStage::Append }, request)
    }

    /// Goes on from what came of the last request. A failure ends it.
    pub fn resume<F>(self, reply: PackReply<F>) -> (progress: PackProgress<F>)
        requires
            self@.is_answered_by(reply@),
        ensures
            packs(progress, self@.after(reply@)),
    {
        match (self.stage, reply) {
            (_, PackReply::Failed(f)) => PackProgress::Stopped(f),
            (PackStage::Walk, PackReply::Entry { relative }) => {
                if relative.len() == 0 {
                    Packing::walk()
                } else {
                    let stage = PackStage::Inspect { relative };
                    PackProgress::Waiting(Packing { stage }, PackRequest::Inspect)
                }
            },
            (PackStage::Inspect { relative }, PackReply::Kind(kind)) => match kind {
                EntryKind::Directory => Packing::append(PackRequest::AppendDirectory { relative }),
                EntryKind::File => Packing::append(PackRequest::AppendFile { relative }),
                EntryKind::Link { modified } => {
                    let header = link_header(modified);
                    Packing::append(PackRequest::AppendLink { relative, header })
                },
                EntryKind::Other => Packing::walk(),
            },
            (PackStage::Append, _) => Packing::walk(),
            _ => PackProgress::Finished,
        }
    }
}

/// An entry below a directory.
pub struct Item {
    /// The path as seen from the directory.
    pub relative: Seq<u8>,
    pub kind: EntryKind,
}

/// The answers to the requests of a packing in which nothing fails and these
/// are the entries, behind the directory itself.
pub open spec fn walk_answers<F>(items: Seq<Item>) -> Seq<PackAnswer<F>>
    decreases items.len(),
{
    if items.len() == 0 {
        seq![PackAnswer::End]
    } else {
        let item = items[0];
        let front = seq![
            PackAnswer::Entry { relative: item.relative },
            PackAnswer::Kind(item.kind),
        ];
        let behind = walk_answers(items.drop_first());
        if item.kind is Other {
            front + behind
        } else {
            front.push(PackAnswer::Done) + behind
        }
    }
}

/// What is put into the archive of these entries.
pub open spec fn contents(items: Seq<Item>) -> Seq<PackAsk>
    decreases items.len(),
{
    if items.len() == 0 {
        Seq::empty()
    } else {
        let relative = items[0].relative;
        let behind = contents(items.drop_first());
        match items[0].kind {
            EntryKind::Directory => seq![PackAsk::AppendDirectory { relative }] + behind,
            EntryKind::File => seq![PackAsk::AppendFile { relative }] + behind,
            EntryKind::Link { modified } => seq![
                PackAsk::AppendLink { relative, header: header_of_link(modified) },
            ] + behind,
            EntryKind::Other => behind,
        }
    }
}

/// The requests to put something into the archive that are made while `answers`
/// come in.
pub open spec fn appended<F>(step: PackStep<F>, answers: Seq<PackAnswer<F>>) -> Seq<PackAsk>
    decreases answers.len(),
{
    match step {
        PackStep::Ask(state, ask) => {
            let first = if ask is NextEntry || ask is Inspect {
                Seq::empty()
            } else {
                seq![ask]
            };
            if answers.len() == 0 {
                first
            } else {
                first + appended(state.after(answers[0]), answers.drop_first())
            }
        },
        _ => Seq::empty(),
    }
}

/// Where a packing stands when `answers` have come in.
pub open spec fn packed<F>(step: PackStep<F>, answers: Seq<PackAnswer<F>>) -> PackStep<F>
    decreases answers.len(),
{
    match step {
        PackStep::Ask(state, _) => if answers.len() == 0 {
            step
        } else {
            packed(state.after(answers[0]), answers.drop_first())
        },
        _ => step,
    }
}

/// Every directory, file and symbolic link goes into the archive, once and in
/// the order of the walk, and nothing else does.
pub proof fn law_all_that_can_be_packed_is_packed<F>(items: Seq<Item>)
    requires
        forall|i: int| 0 <= i < items.len() ==> (#[trigger] items[i]).relative.len() > 0,
    ensures
        ({
            let walk = PackStep::<F>::Ask(PackState::Walk, PackAsk::NextEntry);
            &&& appended(walk, walk_answers(items)) == contents(items)
            &&& packed(walk, walk_answers(items)) is Finish
        }),
    decreases items.len(),
{
    reveal_with_fuel(appended, 4);
    reveal_with_fuel(packed, 4);
    let answers = walk_answers::<F>(items);
    if items.len() == 0 {
        assert(answers.drop_first() =~= Seq::<PackAnswer<F>>::empty());
    } else {
        let rest = items.drop_first();
        assert forall|i: int| 0 <= i < rest.len() implies (#[trigger] rest[i]).relative.len()
            > 0 by {
            assert(rest[i] == items[i + 1]);
        }
        law_all_that_can_be_packed_is_packed::<F>(rest);
        let behind = walk_answers::<F>(rest);
        assert(items[0].relative.len() > 0);
        assert(answers[0] == PackAnswer::<F>::Entry { relative: items[0].relative });
        assert(answers.drop_first()[0] == PackAnswer::<F>::Kind(items[0].kind));
        if items[0].kind is Other {
            assert(answers.drop_first().drop_first() =~= behind);
        } else {
            assert(answers.drop_first().drop_first()[0] == PackAnswer::<F>::Done);
            assert(answers.drop_first().drop_first().drop_first() =~= behind);
        }
        let walk = PackStep::<F>::Ask(PackState::Walk, PackAsk::NextEntry);
        assert(appended(walk, answers) =~= contents(items));
    }
}

/// The header of a symbolic link has no size and all permissions, and the time of
/// the link's last change, or 0 where that is not known or was before 1970.
pub proof fn law_headers_of_links(modified: Option<i64>, header: LinkHeader)
    requires
        call_ensures(link_header, (modified,), header),
    ensures
        header.size == 0,
        header.mode == 0o777,
        header.mtime == match modified {
            Some(seconds) => if seconds < 0 {
                0
            } else {
                seconds as int
            },
            None => 0,
        },
{
}

/// A walk begins by asking for an entry; the directory itself is passed over, and
/// of any other entry it is asked what it is.
pub proof fn law_every_entry_is_looked_at<F>(
    begun: (Packing, PackRequest),
    packing: Packing,
    relative: Vec<u8>,
    progress: PackProgress<F>,
)
    requires
        call_ensures(append_directory_contents, (), begun),
        packing@ is Walk,
        call_ensures(Packing::resume::<F>, (packing, PackReply::Entry { relative }), progress),
    ensures
        begun.0@ is Walk,
        begun.1 is NextEntry,
        progress matches PackProgress::Waiting(next, request) && if relative@.len() == 0 {
            next@ is Walk && request is NextEntry
        } else {
            next@ == (PackState::Inspect { relative: relative@ }) && request is Inspect
        },
{
}

/// An entry is put into the archive as what it is, under its path: a directory, a
/// file, or a symbolic link with its header. Anything else is passed over.
pub proof fn law_an_entry_is_packed_as_what_it_is<F>(
    packing: Packing,
    relative: Seq<u8>,
    kind: EntryKind,
    progress: PackProgress<F>,
)
    requires
        packing@ == (PackState::Inspect { relative }),
        call_ensures(Packing::resume::<F>, (packing, PackReply::Kind(kind)), progress),
    ensures
        ({
            &&& progress matches PackProgress::Waiting(next, request)
            &&& match kind {
                EntryKind::Directory => next@ is Append && (
                request matches PackRequest::AppendDirectory { relative: r } && r@ == relative),
                EntryKind::File => next@ is Append && (request matches PackRequest::AppendFile {
                    relative: r,
                } && r@ == relative),
                EntryKind::Link { modified } => {
                    &&& next@ is Append
                    &&& request matches PackRequest::AppendLink { relative: r, header }
                    &&& r@ == relative
                    &&& header.size == 0
                    &&& header.mode == 0o777
                    &&& header.mtime == match modified {
                        Some(seconds) => if seconds < 0 {
                            0
                        } else {
                            seconds as int
                        },
                        None => 0,
                    }
                },
                EntryKind::Other => next@ is Walk && request is NextEntry,
            }
        }),
{
}

/// When an entry is in the archive the walk goes on, at its end the archive is
/// whole, and a failure ends it.
pub proof fn law_the_walk_goes_on_to_its_end<F>(
    packing: Packing,
    f: F,
    done: PackProgress<F>,
    end: PackProgress<F>,
    failed: PackProgress<F>,
)
    requires
        call_ensures(Packing::resume::<F>, (packing, PackReply::Done), done),
        call_ensures(Packing::resume::<F>, (packing, PackReply::End), end),
        call_ensures(Packing::resume::<F>, (packing, PackReply::Failed(f)), failed),
    ensures
        packing@ is Append ==> (done matches PackProgress::Waiting(next, request) && next@ is Walk
            && request is NextEntry),
        packing@ is Walk ==> end is Finished,
        failed == PackProgress::Stopped(f),
{
}

} // verus!
