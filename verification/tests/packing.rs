use fileserver_backup::packing::{
    append_directory_contents, link_header, set_header_mtime, EntryKind, LinkHeader, PackProgress,
    PackReply, PackRequest,
};

fn pack(entries: &[(&str, EntryKind)]) -> Vec<PackRequest> {
    let mut walk = entries.iter();
    let mut kind = EntryKind::Other;
    let mut done = Vec::new();
    let (mut packing, mut request) = append_directory_contents();
    loop {
        let reply: PackReply<&str> = match request {
            PackRequest::NextEntry => match walk.next() {
                Some((relative, next)) => {
                    kind = *next;
                    PackReply::Entry {
                        relative: relative.as_bytes().to_vec(),
                    }
                }
                None => PackReply::End,
            },
            PackRequest::Inspect => PackReply::Kind(kind),
            append => {
                done.push(append);
                PackReply::Done
            }
        };
        match packing.resume(reply) {
            PackProgress::Waiting(next, next_request) => {
                packing = next;
                request = next_request;
            }
            PackProgress::Finished => return done,
            PackProgress::Stopped(failure) => panic!("{failure}"),
        }
    }
}

#[test]
fn directories_files_and_links_are_packed() {
    let packed = pack(&[
        ("", EntryKind::Directory),
        ("data", EntryKind::Directory),
        ("data/a", EntryKind::File),
        ("data/socket", EntryKind::Other),
        ("link", EntryKind::Link { modified: Some(5) }),
    ]);
    assert_eq!(packed.len(), 3);
    assert!(matches!(&packed[0], PackRequest::AppendDirectory { relative } if relative == b"data"));
    assert!(matches!(&packed[1], PackRequest::AppendFile { relative } if relative == b"data/a"));
    assert!(matches!(
        &packed[2],
        PackRequest::AppendLink { relative, header }
            if relative == b"link" && *header == LinkHeader { size: 0, mode: 0o777, mtime: 5 }
    ));
}

#[test]
fn an_empty_directory_packs_nothing() {
    assert!(pack(&[("", EntryKind::Directory)]).is_empty());
    assert!(pack(&[]).is_empty());
}

#[test]
fn a_failure_ends_the_packing() {
    let (packing, _) = append_directory_contents();
    assert!(matches!(
        packing.resume(PackReply::Failed("loop")),
        PackProgress::Stopped("loop")
    ));
}

#[test]
fn times_before_1970_count_as_1970() {
    let mut header = link_header(None);
    assert_eq!(
        header,
        LinkHeader {
            size: 0,
            mode: 0o777,
            mtime: 0
        }
    );
    set_header_mtime(&mut header, i64::MAX);
    assert_eq!(header.mtime, 9_223_372_036_854_775_807);
    set_header_mtime(&mut header, -1);
    assert_eq!(header.mtime, 0);
    assert_eq!(link_header(Some(1_767_225_600)).mtime, 1_767_225_600);
    assert_eq!(link_header(Some(i64::MIN)).mtime, 0);
}
