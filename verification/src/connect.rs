//! Reaching SFTP storage: from an address and secrets to an open connection.
//!
//! [`SftpStorage::connect`] begins, and [`Connecting::resume`] goes on from what
//! came of each request.

use vstd::prelude::*;
use crate::refusal::{Failure, Refusal};
use crate::sftp;
use crate::sftp::{
    is_without_end_slashes, normalize_remote_dir, normalized_dir, SftpStorage,
};
use crate::text;
use crate::text::{optional_text, trimmed_end, CharClass};

verus! {

/// The port of addresses that name none.
pub const DEFAULT_PORT: u16 = 22;

/// The user of addresses that name none, where the environment does not name
/// one either.
pub const DEFAULT_USER: &'static str = "backup";

/// The parts of an address that matter here.
#[derive(Debug)]
pub struct UrlParts {
    pub scheme: String,
    pub host: Option<String>,
    pub port: Option<u16>,
    pub username: String,
    pub path: String,
}

/// What [`UrlParts`] say.
pub struct UrlText {
    pub scheme: Seq<char>,
    pub host: Option<Seq<char>>,
    pub port: Option<u16>,
    pub username: Seq<char>,
    pub path: Seq<char>,
}

impl View for UrlParts {
    type V = UrlText;

    open spec fn view(&self) -> UrlText {
        UrlText {
            scheme: self.scheme@,
            host: optional_text(self.host),
            port: self.port,
            username: self.username@,
            path: self.path@,
        }
    }
}

/// The parts that the `url` crate finds in an address, if it takes it.
pub uninterp spec fn url_parts(address: Seq<char>) -> Option<UrlText>;

/// The error that the `url` crate gives for an address that it does not take.
pub uninterp spec fn url_error(address: Seq<char>) -> url::ParseError;

/// `url::Url::parse` and what `scheme`, `host_str`, `port`, `username` and
/// `path` give of the result, or the error. All of it depends on the address
/// alone.
#[verifier::external_body]
fn read_url(address: &str) -> (r: Result<UrlParts, url::ParseError>)
    ensures
        r is Ok <==> url_parts(address@) is Some,
        r matches Ok(parts) ==> url_parts(address@) == Some(parts@),
        r matches Err(error) ==> error == url_error(address@),
{
    let url = url::Url::parse(address)?;
    Ok(
        UrlParts {
            scheme: url.scheme().to_owned(),
            host: url.host_str().map(str::to_owned),
            port: url.port(),
            username: url.username().to_owned(),
            path: url.path().to_owned(),
        },
    )
}

/// A server to connect to.
#[derive(Debug)]
pub struct SftpTarget {
    pub host: String,
    pub port: u16,
    /// The user, or nothing if the address names none.
    pub username: String,
    /// The directory that holds the directories of the volumes.
    pub root: String,
}

/// What an [`SftpTarget`] says.
pub struct Target {
    pub host: Seq<char>,
    pub port: u16,
    pub username: Seq<char>,
    pub root: Seq<char>,
}

impl View for SftpTarget {
    type V = Target;

    open spec fn view(&self) -> Target {
        Target {
            host: self.host@,
            port: self.port,
            username: self.username@,
            root: self.root@,
        }
    }
}

/// Whether the scheme of an address is one of SFTP's.
pub open spec fn is_sftp_scheme(scheme: Seq<char>) -> bool {
    scheme == "ssh"@ || scheme == "sftp"@
}

/// The server that an address with a host leads to.
pub open spec fn target_of(parts: UrlText) -> Target
    recommends
        parts.host is Some,
{
    Target {
        host: parts.host->0,
        port: match parts.port {
            Some(port) => port,
            None => DEFAULT_PORT,
        },
        username: parts.username,
        root: normalized_dir(parts.path),
    }
}

/// Finds the server that an address leads to.
pub fn sftp_target(parts: UrlParts) -> (r: Result<SftpTarget, Refusal>)
    ensures
        if !is_sftp_scheme(parts@.scheme) {
            r matches Err(Refusal::SftpUrlScheme)
        } else if parts@.host is None {
            r matches Err(Refusal::SftpUrlHost)
        } else {
            r matches Ok(target) && target@ == target_of(parts@)
        },
{
    if !text::equal(parts.scheme.as_str(), "ssh") && !text::equal(parts.scheme.as_str(), "sftp") {
        return Err(Refusal::SftpUrlScheme);
    }
    let port: u16 = match parts.port {
        Some(port) => port,
        None => DEFAULT_PORT,
    };
    let root = normalize_remote_dir(parts.path.as_str());
    match parts.host {
        Some(host) => Ok(SftpTarget { host, port, username: parts.username, root }),
        None => Err(Refusal::SftpUrlHost),
    }
}

/// The secrets of a connection.
#[derive(Debug)]
pub struct Secrets {
    pub password: Option<String>,
    pub private_key: Option<String>,
    pub passphrase: Option<String>,
}

/// One of the secrets.
#[derive(Clone, Copy, Debug, PartialEq, Eq, Structural)]
pub enum SecretKind {
    Password,
    PrivateKey,
    Passphrase,
}

/// What came of reading the file of a secret.
#[derive(Debug)]
pub enum SecretFile<F> {
    /// The file holds this.
    Read(String),
    /// There is no such file.
    NotFound,
    /// The file could not be read.
    Failed(F),
}

/// The secret, if there is one: what was given, or else what the file holds
/// without the line ends behind it. The file counts only where nothing was
/// given.
pub fn secret_value<F>(inline: Option<String>, file: SecretFile<F>) -> (r: Result<
    Option<String>,
    F,
>)
    ensures
        match (inline, file) {
            (Some(value), _) => r matches Ok(Some(secret)) && secret@ == value@,
            (None, SecretFile::Read(content)) => r matches Ok(Some(secret)) && secret@
                == trimmed_end(content@, CharClass::LineEnd),
            (None, SecretFile::NotFound) => r matches Ok(None),
            (None, SecretFile::Failed(f)) => r matches Err(e) && e == f,
        },
{
    match inline {
        Some(value) => Ok(Some(value)),
        None => match file {
            SecretFile::Read(content) => Ok(
                Some(text::trim_end(content.as_str(), CharClass::LineEnd).to_owned()),
            ),
            SecretFile::NotFound => Ok(None),
            SecretFile::Failed(f) => Err(f),
        },
    }
}

/// What the program is to do for a connection.
#[derive(Debug)]
pub enum ConnectRequest {
    /// Read the environment's name for the user.
    ReadUserVariable,
    /// Connect to the host and agree on a session.
    OpenSession { host: String, port: u16 },
    /// Read the file of a secret.
    ReadSecret(SecretKind),
    /// Prove who the user is by a private key.
    AuthenticateWithKey { username: String, key: String, passphrase: Option<String> },
    /// Prove who the user is by a password.
    AuthenticateWithPassword { username: String, password: String },
    /// Ask whether the server has accepted the proof.
    CheckAuthenticated,
    /// Open the SFTP subsystem.
    OpenSftp,
}

/// What a [`ConnectRequest`] says.
pub enum ConnectAsk {
    ReadUserVariable,
    OpenSession { host: Seq<char>, port: u16 },
    ReadSecret(SecretKind),
    AuthenticateWithKey {
        username: Seq<char>,
        key: Seq<char>,
        passphrase: Option<Seq<char>>,
    },
    AuthenticateWithPassword { username: Seq<char>, password: Seq<char> },
    CheckAuthenticated,
    OpenSftp,
}

impl View for ConnectRequest {
    type V = ConnectAsk;

    open spec fn view(&self) -> ConnectAsk {
        match *self {
            ConnectRequest::ReadUserVariable => ConnectAsk::ReadUserVariable,
            ConnectRequest::OpenSession { host, port } => ConnectAsk::OpenSession {
                host: host@,
                port,
            },
            ConnectRequest::ReadSecret(kind) => ConnectAsk::ReadSecret(kind),
            ConnectRequest::AuthenticateWithKey { username, key, passphrase } => {
                ConnectAsk::AuthenticateWithKey {
                    username: username@,
                    key: key@,
                    passphrase: optional_text(passphrase),
                }
            },
            ConnectRequest::AuthenticateWithPassword { username, password } => {
                ConnectAsk::AuthenticateWithPassword { username: username@, password: password@ }
            },
            ConnectRequest::CheckAuthenticated => ConnectAsk::CheckAuthenticated,
            ConnectRequest::OpenSftp => ConnectAsk::OpenSftp,
        }
    }
}

/// What came of a [`ConnectRequest`].
#[derive(Debug)]
pub enum ConnectReply<F> {
    /// The environment's name for the user, if it has one that is text.
    User(Option<String>),
    /// The file of the secret.
    Secret(SecretFile<F>),
    /// Whether the server has accepted the proof.
    Authenticated(bool),
    /// It was done.
    Done,
    /// It failed.
    Failed(F),
}

/// How far a connection has come, by the request that was made last.
#[derive(Clone, Copy, Debug, PartialEq, Eq, Structural)]
pub enum ConnectStage {
    User,
    Session,
    Secret(SecretKind),
    Authentication,
    Check,
    Subsystem,
}

/// A connection in the making.
#[derive(Debug)]
pub struct Connecting {
    target: SftpTarget,
    secrets: Secrets,
    stage: ConnectStage,
}

/// What a [`Connecting`] holds.
pub struct Login {
    pub target: Target,
    pub password: Option<Seq<char>>,
    pub private_key: Option<Seq<char>>,
    pub passphrase: Option<Seq<char>>,
    pub stage: ConnectStage,
}

impl View for Connecting {
    type V = Login;

    closed spec fn view(&self) -> Login {
        Login {
            target: self.target@,
            password: optional_text(self.secrets.password),
            private_key: optional_text(self.secrets.private_key),
            passphrase: optional_text(self.secrets.passphrase),
            stage: self.stage,
        }
    }
}

/// Where a connection stands.
#[derive(Debug)]
pub enum ConnectProgress<F> {
    /// A request waits to be carried out.
    Waiting(Connecting, ConnectRequest),
    /// The storage has been reached.
    Connected(SftpStorage),
    /// It came to nothing.
    Stopped(Failure<F>),
}

/// What happens next on the way to a connection.
pub enum ConnectStep<F> {
    /// A request is made.
    Ask(Login, ConnectAsk),
    /// The storage with this directory has been reached.
    Reach(Seq<char>),
    /// There are no credentials.
    NoCredentials,
    /// The server has not accepted the proof.
    Unaccepted,
    /// A request failed.
    Fail(F),
}

/// Whether `progress` is what `step` says.
pub open spec fn does<F>(progress: ConnectProgress<F>, step: ConnectStep<F>) -> bool {
    match step {
        ConnectStep::Ask(login, ask) => progress matches ConnectProgress::Waiting(c, request)
            && c@ == login && request@ == ask,
        ConnectStep::Reach(root) => progress matches ConnectProgress::Connected(storage)
            && storage.root@ == root,
        ConnectStep::NoCredentials => progress matches ConnectProgress::Stopped(
            Failure::Refused(Refusal::SftpCredentialsMissing),
        ),
        ConnectStep::Unaccepted => progress matches ConnectProgress::Stopped(
            Failure::Refused(Refusal::SftpUnauthenticated),
        ),
        ConnectStep::Fail(f) => progress matches ConnectProgress::Stopped(Failure::Outside(e))
            && e == f,
    }
}

impl Login {
    /// The same at another stage.
    pub open spec fn at(self, stage: ConnectStage) -> Login {
        Login { stage, ..self }
    }

    /// The same with a secret.
    pub open spec fn with(self, kind: SecretKind, secret: Option<Seq<char>>) -> Login {
        match kind {
            SecretKind::Password => Login { password: secret, ..self },
            SecretKind::PrivateKey => Login { private_key: secret, ..self },
            SecretKind::Passphrase => Login { passphrase: secret, ..self },
        }
    }

    /// Asks for a session with the server.
    pub open spec fn open_session<F>(self) -> ConnectStep<F> {
        ConnectStep::Ask(
            self.at(ConnectStage::Session),
            ConnectAsk::OpenSession { host: self.target.host, port: self.target.port },
        )
    }

    /// Asks for the file of the first secret, from `kind` on, that was not
    /// given; where all were, proves who the user is.
    pub open spec fn read_secrets<F>(self, kind: SecretKind) -> ConnectStep<F> {
        if kind is Password && self.password is None {
            self.read_secret(SecretKind::Password)
        } else if !(kind is Passphrase) && self.private_key is None {
            self.read_secret(SecretKind::PrivateKey)
        } else if self.passphrase is None {
            self.read_secret(SecretKind::Passphrase)
        } else {
            self.authenticate()
        }
    }

    /// Asks for the file of a secret.
    pub open spec fn read_secret<F>(self, kind: SecretKind) -> ConnectStep<F> {
        ConnectStep::Ask(self.at(ConnectStage::Secret(kind)), ConnectAsk::ReadSecret(kind))
    }

    /// Proves who the user is: by the private key if there is one, and
    /// otherwise by the password.
    pub open spec fn authenticate<F>(self) -> ConnectStep<F> {
        let next = self.at(ConnectStage::Authentication);
        if let Some(key) = self.private_key {
            ConnectStep::Ask(
                next,
                ConnectAsk::AuthenticateWithKey {
                    username: self.target.username,
                    key,
                    passphrase: self.passphrase,
                },
            )
        } else if let Some(password) = self.password {
            ConnectStep::Ask(
                next,
                ConnectAsk::AuthenticateWithPassword { username: self.target.username, password },
            )
        } else {
            ConnectStep::NoCredentials
        }
    }

    /// Goes on once a secret has been looked for.
    pub open spec fn after_secret<F>(self, kind: SecretKind) -> ConnectStep<F> {
        match kind {
            SecretKind::Password => self.read_secrets(SecretKind::PrivateKey),
            SecretKind::PrivateKey => self.read_secrets(SecretKind::Passphrase),
            SecretKind::Passphrase => self.authenticate(),
        }
    }

    /// Whether `reply` answers the request that was made last.
    pub open spec fn is_answered_by<F>(self, reply: ConnectReply<F>) -> bool {
        reply is Failed || match self.stage {
            ConnectStage::User => reply is User,
            ConnectStage::Secret(_) => reply is Secret,
            ConnectStage::Check => reply is Authenticated,
            _ => reply is Done,
        }
    }

    /// The same with a user: the one that the environment names, if it does.
    pub open spec fn of_user(self, user: Option<Seq<char>>) -> Login {
        let username = match user {
            Some(user) => user,
            None => DEFAULT_USER@,
        };
        Login { target: Target { username, ..self.target }, ..self }
    }

    /// Goes on from what the file of a secret holds.
    pub open spec fn after_file<F>(self, kind: SecretKind, file: SecretFile<F>) -> ConnectStep<F> {
        match file {
            SecretFile::Read(content) => self.with(
                kind,
                Some(trimmed_end(content@, CharClass::LineEnd)),
            ).after_secret(kind),
            SecretFile::NotFound => self.with(kind, None).after_secret(kind),
            SecretFile::Failed(f) => ConnectStep::Fail(f),
        }
    }

    /// What happens next.
    pub open spec fn after<F>(self, reply: ConnectReply<F>) -> ConnectStep<F> {
        match (self.stage, reply) {
            (_, ConnectReply::Failed(f)) => ConnectStep::Fail(f),
            (ConnectStage::User, ConnectReply::User(user)) => self.of_user(
                optional_text(user),
            ).open_session(),
            (ConnectStage::Session, _) => self.read_secrets(SecretKind::Password),
            (ConnectStage::Secret(kind), ConnectReply::Secret(file)) => self.after_file(kind, file),
            (ConnectStage::Authentication, _) => ConnectStep::Ask(
                self.at(ConnectStage::Check),
                ConnectAsk::CheckAuthenticated,
            ),
            (ConnectStage::Check, ConnectReply::Authenticated(true)) => ConnectStep::Ask(
                self.at(ConnectStage::Subsystem),
                ConnectAsk::OpenSftp,
            ),
            (ConnectStage::Subsystem, _) => ConnectStep::Reach(self.target.root),
            _ => ConnectStep::Unaccepted,
        }
    }
}

/// A login that has come nowhere yet.
pub open spec fn login_with(target: Target, secrets: Secrets) -> Login {
    Login {
        target,
        password: optional_text(secrets.password),
        private_key: optional_text(secrets.private_key),
        passphrase: optional_text(secrets.passphrase),
        stage: ConnectStage::User,
    }
}

impl SftpStorage {
    /// Begins to connect to the server at `url` with the secrets that were
    /// given.
    pub fn connect(url: Option<&str>, secrets: Secrets) -> (r: Result<
        (Connecting, ConnectRequest),
        Refusal,
    >)
        ensures
            match url {
                None => r matches Err(Refusal::SftpUrlMissing),
                Some(address) => match url_parts(address@) {
                    None => r matches Err(Refusal::SftpUrlSyntax { reason }) && reason == url_error(
                        address@,
                    ),
                    Some(parts) => if !is_sftp_scheme(parts.scheme) {
                        r matches Err(Refusal::SftpUrlScheme)
                    } else if parts.host is None {
                        r matches Err(Refusal::SftpUrlHost)
                    } else {
                        r matches Ok((connecting, request)) && begins(
                            login_with(target_of(parts), secrets),
                            connecting,
                            request,
                        )
                    },
                },
            },
    {
        match url {
            None => Err(Refusal::SftpUrlMissing),
            Some(address) => match read_url(address) {
                Err(reason) => Err(Refusal::SftpUrlSyntax { reason }),
                Ok(parts) => match sftp_target(parts) {
                    Err(refusal) => Err(refusal),
                    Ok(target) => Ok(begin(target, secrets)),
                },
            },
        }
    }
}

/// Whether a connection begins with this request: one for the user if the
/// address names none, and otherwise one for a session.
pub open spec fn begins(login: Login, connecting: Connecting, request: ConnectRequest) -> bool {
    if login.target.username.len() == 0 {
        connecting@ == login.at(ConnectStage::User) && request@ == ConnectAsk::ReadUserVariable
    } else {
        ConnectStep::<()>::Ask(connecting@, request@) == login.open_session::<()>()
    }
}

/// Begins to connect to a server.
pub fn begin(target: SftpTarget, secrets: Secrets) -> (r: (Connecting, ConnectRequest))
    ensures
        begins(login_with(target@, secrets), r.0, r.1),
{
    if target.username.as_str().is_empty() {
        let connecting = Connecting { target, secrets, stage: ConnectStage::User };
        (connecting, ConnectRequest::ReadUserVariable)
    } else {
        let request = ConnectRequest::OpenSession { host: target.host.clone(), port: target.port };
        (Connecting { target, secrets, stage: ConnectStage::Session }, request)
    }
}

impl Connecting {
    /// Asks for a session with the server.
    fn open_session<F>(self) -> (progress: ConnectProgress<F>)
        ensures
            does(progress, self@.open_session()),
    {
        let request = ConnectRequest::OpenSession {
            host: self.target.host.clone(),
            port: self.target.port,
        };
        let next = Connecting {
            target: self.target,
            secrets: self.secrets,
            stage: ConnectStage::Session,
        };
        assert(next@ == self@.at(ConnectStage::Session));
        ConnectProgress::Waiting(next, request)
    }

    /// Asks for the file of a secret.
    fn read_secret<F>(self, kind: SecretKind) -> (progress: ConnectProgress<F>)
        ensures
            does(progress, self@.read_secret(kind)),
    {
        let next = Connecting {
            target: self.target,
            secrets: self.secrets,
            stage: ConnectStage::Secret(kind),
        };
        assert(next@ == self@.at(ConnectStage::Secret(kind)));
        ConnectProgress::Waiting(next, ConnectRequest::ReadSecret(kind))
    }

    /// Asks for the file of the first secret, from `kind` on, that was not
    /// given; where all were, proves who the user is.
    fn read_secrets<F>(self, kind: SecretKind) -> (progress: ConnectProgress<F>)
        ensures
            does(progress, self@.read_secrets(kind)),
    {
        if kind == SecretKind::Password && self.secrets.password.is_none() {
            self.read_secret(SecretKind::Password)
        } else if kind != SecretKind::Passphrase && self.secrets.private_key.is_none() {
            self.read_secret(SecretKind::PrivateKey)
        } else if self.secrets.passphrase.is_none() {
            self.read_secret(SecretKind::Passphrase)
        } else {
            self.authenticate()
        }
    }

    /// Proves who the user is: by the private key if there is one, and
    /// otherwise by the password.
    fn authenticate<F>(self) -> (progress: ConnectProgress<F>)
        ensures
            does(progress, self@.authenticate()),
    {
        let username = self.target.username.clone();
        let request = match (&self.secrets.private_key, &self.secrets.password) {
            (Some(key), _) => ConnectRequest::AuthenticateWithKey {
                username,
                key: key.clone(),
                passphrase: match &self.secrets.passphrase {
                    Some(passphrase) => Some(passphrase.clone()),
                    None => None,
                },
            },
            (None, Some(password)) => ConnectRequest::AuthenticateWithPassword {
                username,
                password: password.clone(),
            },
            (None, None) => {
                return ConnectProgress::Stopped(Failure::Refused(Refusal::SftpCredentialsMissing));
            },
        };
        let next = Connecting {
            target: self.target,
            secrets: self.secrets,
            stage: ConnectStage::Authentication,
        };
        assert(next@ == self@.at(ConnectStage::Authentication));
        ConnectProgress::Waiting(next, request)
    }

    /// Goes on once a secret has been looked for.
    fn after_secret<F>(self, kind: SecretKind, secret: Option<String>) -> (progress:
        ConnectProgress<F>)
        ensures
            does(progress, self@.with(kind, optional_text(secret)).after_secret(kind)),
    {
        let mut secrets = self.secrets;
        match kind {
            SecretKind::Password => {
                secrets.password = secret;
            },
            SecretKind::PrivateKey => {
                secrets.private_key = secret;
            },
            SecretKind::Passphrase => {
                secrets.passphrase = secret;
            },
        }
        let next = Connecting { target: self.target, secrets, stage: self.stage };
        assert(next@ == self@.with(kind, optional_text(secret)));
        match kind {
            SecretKind::Password => next.read_secrets(SecretKind::PrivateKey),
            SecretKind::PrivateKey => next.read_secrets(SecretKind::Passphrase),
            SecretKind::Passphrase => next.authenticate(),
        }
    }

    /// Goes on from what came of the last request. A failure ends it. Secrets
    /// that were given are taken; of the others the files are looked for, the
    /// password's first, then the private key's and the passphrase's.
    pub fn resume<F>(self, reply: ConnectReply<F>) -> (progress: ConnectProgress<F>)
        requires
            self@.is_answered_by(reply),
        ensures
            does(progress, self@.after(reply)),
    {
        let reply = match reply {
            ConnectReply::Failed(f) => {
                return ConnectProgress::Stopped(Failure::Outside(f));
            },
            reply => reply,
        };
        match self.stage {
            ConnectStage::User => {
                let username = match reply {
                    ConnectReply::User(Some(user)) => user,
                    _ => DEFAULT_USER.to_owned(),
                };
                let target = SftpTarget {
                    host: self.target.host,
                    port: self.target.port,
                    username,
                    root: self.target.root,
                };
                let next = Connecting { target, secrets: self.secrets, stage: self.stage };
                next.open_session()
            },
            ConnectStage::Session => self.read_secrets(SecretKind::Password),
            ConnectStage::Secret(kind) => {
                let file = match reply {
                    ConnectReply::Secret(file) => file,
                    _ => SecretFile::NotFound,
                };
                match secret_value(None, file) {
                    Ok(secret) => self.after_secret(kind, secret),
                    Err(f) => ConnectProgress::Stopped(Failure::Outside(f)),
                }
            },
            ConnectStage::Authentication => {
                let next = Connecting {
                    target: self.target,
                    secrets: self.secrets,
                    stage: ConnectStage::Check,
                };
                ConnectProgress::Waiting(next, ConnectRequest::CheckAuthenticated)
            },
            ConnectStage::Check => {
                let accepted = match reply {
                    ConnectReply::Authenticated(accepted) => accepted,
                    _ => false,
                };
                if accepted {
                    let next = Connecting {
                        target: self.target,
                        secrets: self.secrets,
                        stage: ConnectStage::Subsystem,
                    };
                    ConnectProgress::Waiting(next, ConnectRequest::OpenSftp)
                } else {
                    ConnectProgress::Stopped(Failure::Refused(Refusal::SftpUnauthenticated))
                }
            },
            ConnectStage::Subsystem => ConnectProgress::Connected(
                SftpStorage { root: self.target.root },
            ),
        }
    }
}

impl Login {
    /// A secret, if it is known.
    pub open spec fn secret(self, kind: SecretKind) -> Option<Seq<char>> {
        match kind {
            SecretKind::Password => self.password,
            SecretKind::PrivateKey => self.private_key,
            SecretKind::Passphrase => self.passphrase,
        }
    }
}

/// Only the files of secrets that were not given are read.
pub proof fn law_given_secrets_are_not_read<F>(login: Login, from: SecretKind, kind: SecretKind)
    requires
        login.read_secrets::<F>(from) matches ConnectStep::Ask(_, ConnectAsk::ReadSecret(k)) && k
            == kind,
    ensures
        login.secret(kind) is None,
{
}

/// A private key is used where there is one, a password only without a key, and
/// nothing is tried where there is neither.
pub proof fn law_key_before_password<F>(login: Login)
    ensures
        login.authenticate::<F>() matches ConnectStep::Ask(_, ask) && ask is AuthenticateWithKey
            <==> login.private_key is Some,
        login.authenticate::<F>() matches ConnectStep::Ask(_, ask) && ask
            is AuthenticateWithPassword <==> login.private_key is None && login.password is Some,
        login.authenticate::<F>() is NoCredentials <==> login.private_key is None
            && login.password is None,
{
}

/// Where a connection stands when `replies` have come in.
pub open spec fn reached<F>(step: ConnectStep<F>, replies: Seq<ConnectReply<F>>) -> ConnectStep<F>
    decreases replies.len(),
{
    match step {
        ConnectStep::Ask(login, _) => if replies.len() == 0 {
            step
        } else {
            reached(login.after(replies[0]), replies.drop_first())
        },
        _ => step,
    }
}

/// Storage is reached only where the server said that it has accepted the proof,
/// and it is the storage that the address leads to.
pub proof fn law_storage_is_reached_only_by_accepted_users<F>(
    login: Login,
    ask: ConnectAsk,
    replies: Seq<ConnectReply<F>>,
)
    requires
        !(login.stage is Subsystem),
        reached(ConnectStep::Ask(login, ask), replies) is Reach,
    ensures
        reached(ConnectStep::Ask(login, ask), replies) == ConnectStep::<F>::Reach(
            login.target.root,
        ),
        replies.contains(ConnectReply::Authenticated(true)),
    decreases replies.len(),
{
    reveal_with_fuel(reached, 3);
    let rest = replies.drop_first();
    match login.after(replies[0]) {
        ConnectStep::Ask(next, next_ask) => {
            if next.stage is Subsystem {
                assert(replies[0] == ConnectReply::<F>::Authenticated(true));
            } else {
                law_storage_is_reached_only_by_accepted_users(next, next_ask, rest);
                let i = choose|i: int|
                    0 <= i < rest.len() && rest[i] == ConnectReply::<F>::Authenticated(true);
                assert(replies[i + 1] == ConnectReply::<F>::Authenticated(true));
            }
        },
        _ => {},
    }
}

/// Whether `machines` and `requests` are the course of a connection that was
/// begun at `url` with `given` and has had `replies` to all requests but the last.
pub open spec fn is_course<F>(
    url: Option<&str>,
    given: Secrets,
    machines: Seq<Connecting>,
    requests: Seq<ConnectRequest>,
    replies: Seq<ConnectReply<F>>,
) -> bool {
    &&& machines.len() == replies.len() + 1
    &&& requests.len() == replies.len() + 1
    &&& call_ensures(SftpStorage::connect, (url, given), Ok((machines[0], requests[0])))
    &&& forall|i: int|
        0 <= i < replies.len() ==> call_ensures(
            Connecting::resume::<F>,
            (machines[i], #[trigger] replies[i]),
            ConnectProgress::Waiting(machines[i + 1], requests[i + 1]),
        )
}

/// Whether `text` is `content` without the carriage returns and line feeds at
/// its end.
pub open spec fn is_without_line_ends(text: Seq<char>, content: Seq<char>) -> bool {
    &&& text.len() <= content.len()
    &&& text == content.take(text.len() as int)
    &&& forall|i: int|
        text.len() <= i < content.len() ==> #[trigger] content[i] == '\r' || content[i] == '\n'
    &&& text.len() > 0 ==> text.last() != '\r' && text.last() != '\n'
}

/// Whether `value` is a secret as it has to be: what was given, or, where nothing
/// was, what its file was found to hold when it was read, without the line ends
/// behind it, and nothing only where the file was found missing.
pub open spec fn is_supplied<F>(
    value: Option<Seq<char>>,
    given: Option<String>,
    kind: SecretKind,
    requests: Seq<ConnectRequest>,
    replies: Seq<ConnectReply<F>>,
) -> bool {
    match given {
        Some(secret) => value == Some(secret@),
        None => exists|i: int|
            {
                &&& 0 <= i < replies.len()
                &&& requests[i] == ConnectRequest::ReadSecret(kind)
                &&& (#[trigger] replies[i]) matches ConnectReply::Secret(file)
                &&& match file {
                    SecretFile::Read(content) => value matches Some(text) && is_without_line_ends(
                        text,
                        content@,
                    ),
                    SecretFile::NotFound => value is None,
                    SecretFile::Failed(_) => false,
                }
            },
    }
}

/// Whether `username` is the user: the one that the address names, or the one
/// that the environment was found to name, or `backup`.
pub open spec fn is_user<F>(
    username: Seq<char>,
    parts: UrlText,
    requests: Seq<ConnectRequest>,
    replies: Seq<ConnectReply<F>>,
) -> bool {
    if parts.username.len() > 0 {
        username == parts.username
    } else {
        &&& replies.len() > 0
        &&& requests[0] is ReadUserVariable
        &&& replies[0] matches ConnectReply::User(user)
        &&& username == match user {
            Some(user) => user@,
            None => "backup"@,
        }
    }
}

/// Trimming the line ends off a text leaves the text without them.
proof fn lemma_line_ends(content: Seq<char>)
    ensures
        is_without_line_ends(trimmed_end(content, CharClass::LineEnd), content),
    decreases content.len(),
{
    if content.len() > 0 && CharClass::LineEnd.has(content.last()) {
        let front = content.drop_last();
        lemma_line_ends(front);
        let text = trimmed_end(front, CharClass::LineEnd);
        assert(front.take(text.len() as int) =~= content.take(text.len() as int));
        assert forall|i: int| text.len() <= i < content.len() implies #[trigger] content[i] == '\r'
            || content[i] == '\n' by {
            if i < front.len() {
                assert(front[i] == content[i]);
            }
        }
    } else {
        assert(content.take(content.len() as int) =~= content);
    }
}

/// More replies leave a secret as it is.
proof fn lemma_supplied_stays<F>(
    value: Option<Seq<char>>,
    given: Option<String>,
    kind: SecretKind,
    requests: Seq<ConnectRequest>,
    replies: Seq<ConnectReply<F>>,
    n: int,
)
    requires
        0 <= n < replies.len(),
        is_supplied(value, given, kind, requests, replies.take(n)),
    ensures
        is_supplied(value, given, kind, requests, replies.take(n + 1)),
{
    if given is None {
        let i = choose|i: int|
            {
                &&& 0 <= i < n
                &&& requests[i] == ConnectRequest::ReadSecret(kind)
                &&& (#[trigger] replies.take(n)[i]) matches ConnectReply::Secret(file)
                &&& match file {
                    SecretFile::Read(content) => value matches Some(text) && is_without_line_ends(
                        text,
                        content@,
                    ),
                    SecretFile::NotFound => value is None,
                    SecretFile::Failed(_) => false,
                }
            };
        assert(replies.take(n + 1)[i] == replies.take(n)[i]);
    }
}

/// How far a secret is known when `n` replies have come in.
spec fn is_known<F>(
    login: Login,
    given: Secrets,
    kind: SecretKind,
    requests: Seq<ConnectRequest>,
    replies: Seq<ConnectReply<F>>,
) -> bool {
    is_supplied(login.secret(kind), given_secret(given, kind), kind, requests, replies)
}

/// The secret that was given, if one was.
spec fn given_secret(given: Secrets, kind: SecretKind) -> Option<String> {
    match kind {
        SecretKind::Password => given.password,
        SecretKind::PrivateKey => given.private_key,
        SecretKind::Passphrase => given.passphrase,
    }
}

/// Whether a secret is as it was given.
spec fn is_as_given(login: Login, given: Secrets, kind: SecretKind) -> bool {
    login.secret(kind) == optional_text(given_secret(given, kind))
}

/// Where a connection stands when `n` replies have come in.
spec fn stands<F>(
    parts: UrlText,
    given: Secrets,
    login: Login,
    request: ConnectRequest,
    requests: Seq<ConnectRequest>,
    replies: Seq<ConnectReply<F>>,
) -> bool {
    let password = SecretKind::Password;
    let key = SecretKind::PrivateKey;
    let phrase = SecretKind::Passphrase;
    &&& login.target.host == parts.host->0
    &&& login.target.port == match parts.port {
        Some(port) => port,
        None => 22,
    }
    &&& login.target.root == normalized_dir(parts.path)
    &&& if login.stage is User {
        replies.len() == 0 && parts.username.len() == 0 && login.target.username.len() == 0
    } else {
        is_user(login.target.username, parts, requests, replies)
    }
    &&& match login.stage {
        ConnectStage::User => {
            &&& request is ReadUserVariable
            &&& is_as_given(login, given, password) && is_as_given(login, given, key)
                && is_as_given(login, given, phrase)
        },
        ConnectStage::Session => {
            &&& request@ == (ConnectAsk::OpenSession {
                host: login.target.host,
                port: login.target.port,
            })
            &&& is_as_given(login, given, password) && is_as_given(login, given, key)
                && is_as_given(login, given, phrase)
        },
        ConnectStage::Secret(SecretKind::Password) => {
            &&& request@ == ConnectAsk::ReadSecret(password)
            &&& given.password is None
            &&& is_as_given(login, given, key) && is_as_given(login, given, phrase)
        },
        ConnectStage::Secret(SecretKind::PrivateKey) => {
            &&& request@ == ConnectAsk::ReadSecret(key)
            &&& given.private_key is None
            &&& is_known(login, given, password, requests, replies)
            &&& is_as_given(login, given, phrase)
        },
        ConnectStage::Secret(SecretKind::Passphrase) => {
            &&& request@ == ConnectAsk::ReadSecret(phrase)
            &&& given.passphrase is None
            &&& is_known(login, given, password, requests, replies)
            &&& is_known(login, given, key, requests, replies)
        },
        _ => {
            &&& is_known(login, given, password, requests, replies)
            &&& is_known(login, given, key, requests, replies)
            &&& is_known(login, given, phrase, requests, replies)
            &&& login.stage is Authentication ==> match login.private_key {
                Some(k) => request@ == (ConnectAsk::AuthenticateWithKey {
                    username: login.target.username,
                    key: k,
                    passphrase: login.passphrase,
                }),
                None => login.password matches Some(p) && request@ == (
                ConnectAsk::AuthenticateWithPassword {
                    username: login.target.username,
                    password: p,
                }),
            }
            &&& login.stage is Check ==> request@ is CheckAuthenticated && replies.len() > 0
                && is_proof(requests[replies.len() - 1])
            &&& login.stage is Subsystem ==> {
                &&& request@ is OpenSftp
                &&& replies.len() > 1
                &&& replies.last() == ConnectReply::<F>::Authenticated(true)
                &&& requests[replies.len() - 1] is CheckAuthenticated
                &&& is_proof(requests[replies.len() - 2])
            }
        },
    }
    &&& replies.len() <= rank(login.stage)
    &&& !(login.stage is User || login.stage is Session) ==> {
        let i: int = if parts.username.len() == 0 {
            1
        } else {
            0
        };
        &&& i < replies.len()
        &&& requests[i] matches ConnectRequest::OpenSession { host, port }
        &&& host@ == login.target.host && port == login.target.port
    }
    &&& login.stage is Session ==> replies.len() == if parts.username.len() == 0 {
        1int
    } else {
        0int
    }
}

/// Whether a request proves who the user is.
pub open spec fn is_proof(request: ConnectRequest) -> bool {
    request is AuthenticateWithKey || request is AuthenticateWithPassword
}

/// How many requests can come before that of a stage.
spec fn rank(stage: ConnectStage) -> int {
    match stage {
        ConnectStage::User => 0,
        ConnectStage::Session => 1,
        ConnectStage::Secret(SecretKind::Password) => 2,
        ConnectStage::Secret(SecretKind::PrivateKey) => 3,
        ConnectStage::Secret(SecretKind::Passphrase) => 4,
        ConnectStage::Authentication => 5,
        ConnectStage::Check => 6,
        ConnectStage::Subsystem => 7,
    }
}

/// A connection takes the right course.
proof fn lemma_course<F>(
    url: Option<&str>,
    given: Secrets,
    machines: Seq<Connecting>,
    requests: Seq<ConnectRequest>,
    replies: Seq<ConnectReply<F>>,
    n: int,
)
    requires
        is_course(url, given, machines, requests, replies),
        0 <= n <= replies.len(),
    ensures
        url is Some,
        url_parts(url->0@) is Some,
        url_parts(url->0@)->0.host is Some,
        url_parts(url->0@)->0.scheme == "ssh"@ || url_parts(url->0@)->0.scheme == "sftp"@,
        stands(
            url_parts(url->0@)->0,
            given,
            machines[n]@,
            requests[n],
            requests,
            replies.take(n),
        ),
    decreases n,
{
    let parts = url_parts(url->0@)->0;
    if n == 0 {
        let login = login_with(target_of(parts), given);
        assert(begins(login, machines[0], requests[0]));
    } else {
        let m = n - 1;
        lemma_course(url, given, machines, requests, replies, m);
        let reply = replies[m];
        let before = replies.take(m);
        let now = replies.take(n);
        let login = machines[m]@;
        let next = machines[n]@;
        let password = SecretKind::Password;
        let key = SecretKind::PrivateKey;
        let phrase = SecretKind::Passphrase;
        assert(now.last() == reply);
        assert(forall|i: int| 0 <= i < m ==> #[trigger] now[i] == before[i]);
        assert(does(
            ConnectProgress::Waiting(machines[m + 1], requests[m + 1]),
            login.after(reply),
        ));
        assert(ConnectStep::<F>::Ask(next, requests[n]@) == login.after(reply));
        if is_known(login, given, password, requests, before) {
            lemma_supplied_stays(login.password, given.password, password, requests, replies, m);
        }
        if is_known(login, given, key, requests, before) {
            lemma_supplied_stays(login.private_key, given.private_key, key, requests, replies, m);
        }
        if is_known(login, given, phrase, requests, before) {
            lemma_supplied_stays(login.passphrase, given.passphrase, phrase, requests, replies, m);
        }
        if let ConnectStage::Secret(kind) = login.stage {
            if let ConnectReply::Secret(SecretFile::Read(content)) = reply {
                lemma_line_ends(content@);
            }
            assert(now[m] == reply);
            assert(requests[m] == ConnectRequest::ReadSecret(kind));
            assert(is_known(next, given, kind, requests, now));
        }
    }
}

/// When authentication is tried, every secret is as it has to be: what was given,
/// or else what its file was found to hold, so that the file of every secret that
/// was not given has been read. A private key is used where there is one, with
/// its passphrase, and the password where there is none.
pub proof fn law_credentials_are_given_or_read<F>(
    url: Option<&str>,
    given: Secrets,
    machines: Seq<Connecting>,
    requests: Seq<ConnectRequest>,
    replies: Seq<ConnectReply<F>>,
)
    requires
        is_course(url, given, machines, requests, replies),
    ensures
        requests.last() matches ConnectRequest::AuthenticateWithKey { username, key, passphrase }
            ==> {
            &&& is_user(username@, url_parts(url->0@)->0, requests, replies)
            &&& is_supplied(
                Some(key@),
                given.private_key,
                SecretKind::PrivateKey,
                requests,
                replies,
            )
            &&& is_supplied(
                match passphrase {
                    Some(passphrase) => Some(passphrase@),
                    None => None,
                },
                given.passphrase,
                SecretKind::Passphrase,
                requests,
                replies,
            )
        },
        requests.last() matches ConnectRequest::AuthenticateWithPassword { username, password }
            ==> {
            &&& is_user(username@, url_parts(url->0@)->0, requests, replies)
            &&& is_supplied(
                Some(password@),
                given.password,
                SecretKind::Password,
                requests,
                replies,
            )
            &&& is_supplied(
                None,
                given.private_key,
                SecretKind::PrivateKey,
                requests,
                replies,
            )
        },
{
    let n = replies.len() as int;
    lemma_course(url, given, machines, requests, replies, n);
    assert(replies.take(n) =~= replies);
    assert(requests.last() == requests[n]);
}

/// A connection makes no more than eight requests.
pub proof fn law_a_connection_comes_to_an_end<F>(
    url: Option<&str>,
    given: Secrets,
    machines: Seq<Connecting>,
    requests: Seq<ConnectRequest>,
    replies: Seq<ConnectReply<F>>,
)
    requires
        is_course(url, given, machines, requests, replies),
    ensures
        requests.len() <= 8,
{
    let n = replies.len() as int;
    lemma_course(url, given, machines, requests, replies, n);
    assert(replies.take(n) =~= replies);
}

/// A connection is given up only where a request failed, where neither a private
/// key nor a password was given or found in its file, or where the server did not
/// say that it accepted the proof.
pub proof fn law_why_a_connection_is_given_up<F>(
    url: Option<&str>,
    given: Secrets,
    machines: Seq<Connecting>,
    requests: Seq<ConnectRequest>,
    replies: Seq<ConnectReply<F>>,
    reply: ConnectReply<F>,
    failure: Failure<F>,
)
    requires
        is_course(url, given, machines, requests, replies),
        call_ensures(
            Connecting::resume::<F>,
            (machines.last(), reply),
            ConnectProgress::Stopped(failure),
        ),
        machines.last()@.is_answered_by(reply),
    ensures
        match failure {
            Failure::Outside(f) => reply == ConnectReply::Failed(f) || reply
                == ConnectReply::Secret(SecretFile::Failed(f)),
            Failure::Refused(Refusal::SftpCredentialsMissing) => {
                &&& is_supplied(
                    None,
                    given.private_key,
                    SecretKind::PrivateKey,
                    requests,
                    replies.push(reply),
                )
                &&& is_supplied(
                    None,
                    given.password,
                    SecretKind::Password,
                    requests,
                    replies.push(reply),
                )
            },
            Failure::Refused(refusal) => refusal is SftpUnauthenticated && requests.last()
                is CheckAuthenticated && reply == ConnectReply::<F>::Authenticated(false),
        },
{
    let n = replies.len() as int;
    lemma_course(url, given, machines, requests, replies, n);
    assert(replies.take(n) =~= replies);
    assert(requests.last() == requests[n]);
    let login = machines.last()@;
    let all = replies.push(reply);
    let password = SecretKind::Password;
    let key = SecretKind::PrivateKey;
    assert(all.take(n) =~= replies);
    assert(all.take(n + 1) =~= all);
    if is_known(login, given, password, requests, replies) {
        lemma_supplied_stays(login.password, given.password, password, requests, all, n);
    }
    if is_known(login, given, key, requests, replies) {
        lemma_supplied_stays(login.private_key, given.private_key, key, requests, all, n);
    }
    if let ConnectStage::Secret(kind) = login.stage {
        assert(all[n] == reply);
        assert(requests[n] == ConnectRequest::ReadSecret(kind));
        if let ConnectReply::Secret(SecretFile::Read(content)) = reply {
            lemma_line_ends(content@);
        }
        if let ConnectReply::Secret(SecretFile::NotFound) = reply {
            assert(is_supplied(None, given_secret(given, kind), kind, requests, all));
        }
    }
}

/// The session is opened with the host of the address, at its port or 22, and
/// where the connection is made, the server has said that it accepted the proof,
/// and the directory of the storage is the path of the address without the
/// slashes at its end.
pub proof fn law_the_address_is_reached<F>(
    url: Option<&str>,
    given: Secrets,
    machines: Seq<Connecting>,
    requests: Seq<ConnectRequest>,
    replies: Seq<ConnectReply<F>>,
    reply: ConnectReply<F>,
    storage: SftpStorage,
)
    requires
        is_course(url, given, machines, requests, replies),
    ensures
        url is Some,
        url_parts(url->0@) matches Some(parts) && (parts.scheme == "ssh"@ || parts.scheme
            == "sftp"@) && parts.host is Some,
        requests.last() matches ConnectRequest::OpenSession { host, port } ==> {
            let parts = url_parts(url->0@)->0;
            &&& parts.host == Some(host@)
            &&& parts.port == Some(port) || (parts.port is None && port == 22)
        },
        call_ensures(
            Connecting::resume::<F>,
            (machines.last(), reply),
            ConnectProgress::Connected(storage),
        ) ==> {
            &&& requests.last() is OpenSftp
            &&& replies.len() > 1
            &&& replies.last() == ConnectReply::<F>::Authenticated(true)
            &&& requests[replies.len() - 1] is CheckAuthenticated
            &&& is_proof(requests[replies.len() - 2])
            &&& is_without_end_slashes(storage.root@, url_parts(url->0@)->0.path)
        },
{
    let n = replies.len() as int;
    lemma_course(url, given, machines, requests, replies, n);
    assert(replies.take(n) =~= replies);
    assert(requests.last() == requests[n]);
    assert(machines.last() == machines[n]);
    sftp::lemma_end_slashes(url_parts(url->0@)->0.path);
}

/// An address is refused where there is none, where it is no URL, with the error
/// of the URL, where its scheme is neither `ssh` nor `sftp`, and where it names no
/// host, and otherwise taken.
pub proof fn law_which_addresses_are_refused(
    url: Option<&str>,
    given: Secrets,
    r: Result<(Connecting, ConnectRequest), Refusal>,
)
    requires
        call_ensures(SftpStorage::connect, (url, given), r),
    ensures
        match url {
            None => r matches Err(Refusal::SftpUrlMissing),
            Some(address) => match url_parts(address@) {
                None => r matches Err(Refusal::SftpUrlSyntax { reason }) && reason == url_error(
                    address@,
                ),
                Some(parts) => if parts.scheme != "ssh"@ && parts.scheme != "sftp"@ {
                    r matches Err(Refusal::SftpUrlScheme)
                } else if parts.host is None {
                    r matches Err(Refusal::SftpUrlHost)
                } else {
                    r is Ok
                },
            },
        },
{
}

/// The server is that of the address: its host, its port or 22, its user, and its
/// path without the slashes at its end.
pub proof fn law_the_server_is_that_of_the_address(
    parts: UrlParts,
    r: Result<SftpTarget, Refusal>,
)
    requires
        call_ensures(sftp_target, (parts,), r),
    ensures
        r is Ok <==> (parts.scheme@ == "ssh"@ || parts.scheme@ == "sftp"@) && parts.host is Some,
        r matches Ok(target) ==> {
            &&& target.host@ == parts.host->0@
            &&& target.port == match parts.port {
                Some(port) => port,
                None => 22,
            }
            &&& target.username@ == parts.username@
            &&& is_without_end_slashes(target.root@, parts.path@)
        },
        r matches Err(refusal) ==> if parts.scheme@ == "ssh"@ || parts.scheme@ == "sftp"@ {
            refusal is SftpUrlHost
        } else {
            refusal is SftpUrlScheme
        },
{
    sftp::lemma_end_slashes(parts.path@);
}

/// A secret that was given is taken as it is; otherwise it is what its file holds
/// without the line ends behind it, nothing where there is no file, and a failure
/// to read it is handed on.
pub proof fn law_a_secret_is_given_or_in_its_file<F>(
    inline: Option<String>,
    file: SecretFile<F>,
    r: Result<Option<String>, F>,
)
    requires
        call_ensures(secret_value::<F>, (inline, file), r),
    ensures
        match inline {
            Some(value) => r matches Ok(Some(secret)) && secret@ == value@,
            None => match file {
                SecretFile::Read(content) => r matches Ok(Some(secret)) && is_without_line_ends(
                    secret@,
                    content@,
                ),
                SecretFile::NotFound => r matches Ok(None),
                SecretFile::Failed(f) => r matches Err(e) && e == f,
            },
        },
{
    if let SecretFile::Read(content) = file {
        lemma_line_ends(content@);
    }
}

} // verus!
