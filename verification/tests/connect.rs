use fileserver_backup::config::{
    begin_command, build_storage, command_or_default, retention_policy, secret_file, Begun,
    Command, Config, RetentionPolicyKind, StorageDriverKind, StorageStart,
    DEFAULT_RETENTION_COUNT, DEFAULT_RETENTION_MAX_TOTAL_SIZE, DEFAULT_RETENTION_MIN_COUNT,
};
use fileserver_backup::connect::{
    secret_value, sftp_target, ConnectProgress, ConnectReply, ConnectRequest, Connecting,
    SecretFile, SecretKind, Secrets, UrlParts,
};
use fileserver_backup::jobs::Request;
use fileserver_backup::refusal::{Failure, Refusal};
use fileserver_backup::retention::RetentionPolicy;
use fileserver_backup::sftp::SftpStorage;
use fileserver_backup::size::parse_size;

type F = &'static str;

fn secrets(password: Option<&str>, private_key: Option<&str>, passphrase: Option<&str>) -> Secrets {
    Secrets {
        password: password.map(str::to_owned),
        private_key: private_key.map(str::to_owned),
        passphrase: passphrase.map(str::to_owned),
    }
}

fn connect(url: &str, given: Secrets) -> (Connecting, ConnectRequest) {
    SftpStorage::connect(Some(url), given).unwrap()
}

fn waiting(progress: ConnectProgress<F>) -> (Connecting, ConnectRequest) {
    match progress {
        ConnectProgress::Waiting(connecting, request) => (connecting, request),
        other => panic!("{other:?}"),
    }
}

fn config() -> Config {
    Config {
        volumes_root: b"/volumes".to_vec(),
        storage_driver: StorageDriverKind::Local,
        local_storage_root: b"/backups".to_vec(),
        sftp_url: Some("ssh://backup@example.com/server-a".to_owned()),
        sftp_password: None,
        sftp_password_file: b"/a".to_vec(),
        sftp_private_key: Some("key".to_owned()),
        sftp_private_key_file: b"/b".to_vec(),
        sftp_private_key_passphrase: Some("phrase".to_owned()),
        sftp_private_key_passphrase_file: b"/c".to_vec(),
        retention_policy: RetentionPolicyKind::Count,
        retention_count: DEFAULT_RETENTION_COUNT,
        retention_min_count: DEFAULT_RETENTION_MIN_COUNT,
        retention_max_total_size: parse_size(DEFAULT_RETENTION_MAX_TOTAL_SIZE).unwrap(),
        backup_cron: "0 1 * * *".to_owned(),
    }
}

#[test]
fn addresses_name_host_port_user_and_directory() {
    let (connecting, request) = connect(
        "ssh://backup@example.com:2222/server-a//",
        secrets(Some("s3cret"), None, None),
    );
    assert!(matches!(
        request,
        ConnectRequest::OpenSession { host, port: 2222 } if host == "example.com"
    ));
    let (connecting, request) = waiting(connecting.resume(ConnectReply::Done));
    assert!(matches!(request, ConnectRequest::ReadSecret(SecretKind::PrivateKey)));
    let missing = || ConnectReply::Secret(SecretFile::NotFound);
    let (connecting, request) = waiting(connecting.resume(missing()));
    assert!(matches!(request, ConnectRequest::ReadSecret(SecretKind::Passphrase)));
    let (connecting, request) = waiting(connecting.resume(missing()));
    assert!(matches!(
        request,
        ConnectRequest::AuthenticateWithPassword { username, password }
            if username == "backup" && password == "s3cret"
    ));
    let (connecting, request) = waiting(connecting.resume(ConnectReply::Done));
    assert!(matches!(request, ConnectRequest::CheckAuthenticated));
    let (connecting, request) = waiting(connecting.resume(ConnectReply::Authenticated(true)));
    assert!(matches!(request, ConnectRequest::OpenSftp));
    let ConnectProgress::Connected(storage) = connecting.resume::<F>(ConnectReply::Done) else {
        panic!("not connected");
    };
    assert_eq!(storage.root, "/server-a");
}

#[test]
fn addresses_without_user_port_or_path_have_defaults() {
    let (connecting, request) = connect("sftp://h", secrets(Some("p"), Some("k"), Some("q")));
    assert!(matches!(request, ConnectRequest::ReadUserVariable));
    let (connecting, request) = waiting(connecting.resume(ConnectReply::User(None)));
    assert!(matches!(request, ConnectRequest::OpenSession { host, port: 22 } if host == "h"));
    let (connecting, request) = waiting(connecting.resume(ConnectReply::Done));
    assert!(matches!(
        request,
        ConnectRequest::AuthenticateWithKey { username, key, passphrase }
            if username == "backup" && key == "k" && passphrase.as_deref() == Some("q")
    ));
    let (connecting, _) = waiting(connecting.resume(ConnectReply::Done));
    let (connecting, _) = waiting(connecting.resume(ConnectReply::Authenticated(true)));
    let ConnectProgress::Connected(storage) = connecting.resume::<F>(ConnectReply::Done) else {
        panic!("not connected");
    };
    assert_eq!(storage.root, "/");

    let (connecting, _) = connect("ssh://h", secrets(Some("p"), Some("k"), Some("q")));
    let user = ConnectReply::User(Some("nina".to_owned()));
    let (connecting, _) = waiting(connecting.resume(user));
    let (_, request) = waiting(connecting.resume(ConnectReply::Done));
    assert!(matches!(
        request,
        ConnectRequest::AuthenticateWithKey { username, .. } if username == "nina"
    ));
}

#[test]
fn addresses_that_lead_nowhere_are_refused() {
    let refused = |url: Option<&str>| SftpStorage::connect(url, secrets(None, None, None)).unwrap_err();
    assert_eq!(
        refused(None).message(),
        "SFTP_URL is required when STORAGE_DRIVER=sftp"
    );
    let refusal = refused(Some("no address"));
    assert_eq!(refusal.message(), "failed to parse SFTP_URL");
    assert!(matches!(
        refusal,
        Refusal::SftpUrlSyntax { reason } if reason == url::Url::parse("no address").unwrap_err()
    ));
    assert_eq!(
        refused(Some("https://h/")).message(),
        "SFTP_URL must use ssh:// or sftp://"
    );
    assert_eq!(refused(Some("ssh:/path")).message(), "SFTP_URL must include a host");
}

#[test]
fn the_server_is_found_from_the_parts_of_an_address() {
    let parts = |scheme: &str, host: Option<&str>, port, path: &str| UrlParts {
        scheme: scheme.to_owned(),
        host: host.map(str::to_owned),
        port,
        username: "u".to_owned(),
        path: path.to_owned(),
    };
    let target = sftp_target(parts("sftp", Some("h"), None, "/a/")).unwrap();
    assert_eq!((target.host.as_str(), target.port), ("h", 22));
    assert_eq!((target.username.as_str(), target.root.as_str()), ("u", "/a"));
    let target = sftp_target(parts("ssh", Some("h"), Some(0), "")).unwrap();
    assert_eq!((target.port, target.root.as_str()), (0, "/"));
    assert!(matches!(
        sftp_target(parts("SSH", Some("h"), None, "")),
        Err(Refusal::SftpUrlScheme)
    ));
    assert!(matches!(
        sftp_target(parts("http", None, None, "")),
        Err(Refusal::SftpUrlScheme)
    ));
    assert!(matches!(
        sftp_target(parts("ssh", None, None, "")),
        Err(Refusal::SftpUrlHost)
    ));
}

#[test]
fn secrets_come_from_files_where_none_were_given() {
    let (connecting, _) = connect("ssh://u@h/", secrets(None, None, None));
    let (connecting, request) = waiting(connecting.resume(ConnectReply::Done));
    assert!(matches!(request, ConnectRequest::ReadSecret(SecretKind::Password)));
    let file = |content: &str| ConnectReply::Secret(SecretFile::Read(content.to_owned()));
    let (connecting, _) = waiting(connecting.resume(file("p\n")));
    let (connecting, _) = waiting(connecting.resume(file("-----KEY-----\nabc\r\n\n")));
    let (_, request) = waiting(connecting.resume(file(" phrase \n")));
    assert!(matches!(
        request,
        ConnectRequest::AuthenticateWithKey { key, passphrase, .. }
            if key == "-----KEY-----\nabc" && passphrase.as_deref() == Some(" phrase ")
    ));
}

#[test]
fn without_credentials_nothing_is_tried() {
    let (connecting, _) = connect("ssh://u@h/", secrets(None, None, Some("phrase")));
    let (connecting, _) = waiting(connecting.resume(ConnectReply::Done));
    let missing = || ConnectReply::Secret(SecretFile::NotFound);
    let (connecting, _) = waiting(connecting.resume(missing()));
    let ConnectProgress::Stopped(Failure::Refused(refusal)) = connecting.resume::<F>(missing())
    else {
        panic!("no credentials");
    };
    assert_eq!(
        refusal.message(),
        "SFTP authentication requires SFTP_PRIVATE_KEY, SFTP_PRIVATE_KEY_FILE, SFTP_PASSWORD, or SFTP_PASSWORD_FILE"
    );
}

#[test]
fn failures_and_unaccepted_credentials_end_a_connection() {
    let begin = || connect("ssh://u@h/", secrets(Some("p"), Some("k"), Some("q"))).0;
    assert!(matches!(
        begin().resume(ConnectReply::Failed("no route")),
        ConnectProgress::Stopped(Failure::Outside("no route"))
    ));
    let (connecting, _) = waiting(begin().resume(ConnectReply::Done));
    let (connecting, _) = waiting(connecting.resume(ConnectReply::Done));
    let ConnectProgress::Stopped(Failure::Refused(refusal)) =
        connecting.resume::<F>(ConnectReply::Authenticated(false))
    else {
        panic!("accepted");
    };
    assert_eq!(refusal.message(), "SSH authentication did not complete");
    let (connecting, _) = connect("ssh://u@h/", secrets(None, None, None));
    let (connecting, _) = waiting(connecting.resume(ConnectReply::Done));
    assert!(matches!(
        connecting.resume(ConnectReply::Secret(SecretFile::Failed("denied"))),
        ConnectProgress::Stopped(Failure::Outside("denied"))
    ));
}

#[test]
fn line_ends_come_off_the_end_of_a_secret() {
    let read = |content: &str| secret_value::<F>(None, SecretFile::Read(content.to_owned()));
    assert_eq!(read("a\r\nb \r\n\n\r"), Ok(Some("a\r\nb ".to_owned())));
    assert_eq!(read("\n"), Ok(Some(String::new())));
    assert_eq!(secret_value::<F>(None, SecretFile::NotFound), Ok(None));
    assert_eq!(secret_value(None, SecretFile::Failed("denied")), Err("denied"));
    let given = Some("x\n".to_owned());
    assert_eq!(secret_value::<F>(given.clone(), SecretFile::NotFound), Ok(given.clone()));
    assert_eq!(secret_value(given.clone(), SecretFile::Failed("denied")), Ok(given));
}

#[test]
fn storage_is_built_as_the_settings_say() {
    let StorageStart::Local(storage) = build_storage(&config()).unwrap() else {
        panic!("not local");
    };
    assert_eq!(storage.root, b"/backups");
    let mut remote = config();
    remote.storage_driver = StorageDriverKind::Sftp;
    let StorageStart::Sftp(connecting, request) = build_storage(&remote).unwrap() else {
        panic!("not remote");
    };
    assert!(matches!(
        request,
        ConnectRequest::OpenSession { host, port: 22 } if host == "example.com"
    ));
    let (connecting, request) = waiting(connecting.resume(ConnectReply::Done));
    assert!(matches!(request, ConnectRequest::ReadSecret(SecretKind::Password)));
    let missing = ConnectReply::Secret(SecretFile::NotFound);
    let (_, request) = waiting(connecting.resume(missing));
    assert!(matches!(
        request,
        ConnectRequest::AuthenticateWithKey { key, passphrase, .. }
            if key == "key" && passphrase.as_deref() == Some("phrase")
    ));
    remote.sftp_url = Some("ssh://[".to_owned());
    assert!(matches!(
        build_storage(&remote),
        Err(Refusal::SftpUrlSyntax { reason }) if reason == url::Url::parse("ssh://[").unwrap_err()
    ));
    remote.sftp_url = None;
    assert!(matches!(build_storage(&remote), Err(Refusal::SftpUrlMissing)));
    assert_eq!(secret_file(&remote, SecretKind::Password), b"/a");
    assert_eq!(secret_file(&remote, SecretKind::PrivateKey), b"/b");
    assert_eq!(secret_file(&remote, SecretKind::Passphrase), b"/c");
}

#[test]
fn policies_are_those_of_the_settings() {
    let mut settings = config();
    assert_eq!(retention_policy(&settings), RetentionPolicy::Count { keep: 7 });
    settings.retention_policy = RetentionPolicyKind::Size;
    assert_eq!(
        retention_policy(&settings),
        RetentionPolicy::Size {
            min_count: 2,
            max_total_size: 10_737_418_240
        }
    );
}

#[test]
fn commands_begin_their_jobs() {
    let begin = |command| begin_command(&config(), command);
    assert!(matches!(command_or_default(None), Command::Run));
    assert!(matches!(command_or_default(Some(Command::Cleanup)), Command::Cleanup));
    assert!(matches!(begin(Command::Run), Ok(Begun::Schedule)));
    let volume = || "app".to_owned();
    assert!(matches!(
        begin(Command::Backup { volume: volume() }),
        Ok(Begun::Volume(_, Request::CheckSource { source })) if source == b"/volumes/app"
    ));
    assert!(matches!(
        begin(Command::Restore { volume: volume(), archive: None }),
        Ok(Begun::Volume(_, Request::CreateTarget { target })) if target == b"/volumes/app"
    ));
    assert!(matches!(
        begin(Command::Backup { volume: "..".to_owned() }),
        Err(Refusal::InvalidVolumeName { volume }) if volume == ".."
    ));
    for command in [
        Command::BackupAll,
        Command::RestoreAll { archive: None },
        Command::Cleanup,
    ] {
        assert!(matches!(begin(command), Ok(Begun::All(_, Request::ReadVolumes))));
    }
}
