//! What the crate refuses, and the messages it does so with.

use vstd::prelude::*;
use vstd::string::StringExecFns;
use vstd::utf8::{decode_utf8, valid_utf8};
use crate::text;
use crate::text::debug_quoted;

verus! {

/// The error of the `cron` crate.
#[verifier::external_type_specification]
#[verifier::external_body]
pub struct ExCronError(cron::error::Error);

/// The error of the `url` crate.
#[verifier::external_type_specification]
#[verifier::external_body]
pub struct ExUrlError(url::ParseError);

/// The text of bytes, with a replacement for what is not UTF-8.
pub uninterp spec fn lossy_text(bytes: Seq<u8>) -> Seq<char>;

/// `String::from_utf8_lossy`: bytes that are UTF-8 are taken as they are; of
/// others nothing is claimed but that the text depends on the bytes alone.
#[verifier::external_body]
fn show_bytes(bytes: &[u8]) -> (s: String)
    ensures
        s@ == lossy_text(bytes@),
        valid_utf8(bytes@) ==> s@ == decode_utf8(bytes@),
{
    String::from_utf8_lossy(bytes).into_owned()
}

/// A reason to refuse or give up.
#[derive(Debug)]
pub enum Refusal {
    /// The count policy would keep nothing.
    RetentionCountZero,
    /// The size policy could keep nothing.
    RetentionMinCountZero,
    /// A cron expression has fewer than five or more than seven fields.
    CronFieldCount,
    /// A cron expression has fields that mean nothing.
    CronSyntax { expression: String, cause: cron::error::Error },
    /// A schedule has no run left.
    NoFutureRun,
    /// The next run has passed already.
    RunHasPassed { shown: String },
    /// A name that is no name of a volume.
    InvalidVolumeName { volume: String },
    /// There is no directory for a volume.
    VolumeMissing { volume: String, path: Vec<u8> },
    /// A volume has no archive to restore.
    NoArchives,
    /// SFTP storage was chosen without an address.
    SftpUrlMissing,
    /// The address is no URL.
    SftpUrlSyntax { reason: url::ParseError },
    /// The address has a scheme other than `ssh` and `sftp`.
    SftpUrlScheme,
    /// The address names no host.
    SftpUrlHost,
    /// Neither a private key nor a password is at hand.
    SftpCredentialsMissing,
    /// The server has not accepted the credentials.
    SftpUnauthenticated,
}

impl Refusal {
    /// The message of the error.
    pub open spec fn text(self) -> Seq<char> {
        match self {
            Refusal::RetentionCountZero => "RETENTION_COUNT must be greater than 0"@,
            Refusal::RetentionMinCountZero => "RETENTION_MIN_COUNT must be greater than 0"@,
            Refusal::CronFieldCount => "cron expression must have 5, 6, or 7 fields"@,
            Refusal::CronSyntax { expression, .. } => "failed to parse cron expression "@
                + debug_quoted(expression@),
            Refusal::NoFutureRun => "cron expression produced no future run"@,
            Refusal::RunHasPassed { shown } =>
                "failed to calculate sleep duration until scheduled run "@ + shown@,
            Refusal::InvalidVolumeName { volume } => "invalid volume name "@ + debug_quoted(
                volume@,
            ),
            Refusal::VolumeMissing { volume, path } => "volume "@ + volume@ + " does not exist at "@
                + lossy_text(path@),
            Refusal::NoArchives => "no backup archives found"@,
            Refusal::SftpUrlMissing => "SFTP_URL is required when STORAGE_DRIVER=sftp"@,
            Refusal::SftpUrlSyntax { .. } => "failed to parse SFTP_URL"@,
            Refusal::SftpUrlScheme => "SFTP_URL must use ssh:// or sftp://"@,
            Refusal::SftpUrlHost => "SFTP_URL must include a host"@,
            Refusal::SftpCredentialsMissing =>
                "SFTP authentication requires SFTP_PRIVATE_KEY, SFTP_PRIVATE_KEY_FILE, SFTP_PASSWORD, or SFTP_PASSWORD_FILE"@,
            Refusal::SftpUnauthenticated => "SSH authentication did not complete"@,
        }
    }

    /// Gives the message of the error.
    pub fn message(&self) -> (message: String)
        ensures
            message@ == self.text(),
    {
        match self {
            Refusal::RetentionCountZero => "RETENTION_COUNT must be greater than 0".to_owned(),
            Refusal::RetentionMinCountZero => {
                "RETENTION_MIN_COUNT must be greater than 0".to_owned()
            },
            Refusal::CronFieldCount => "cron expression must have 5, 6, or 7 fields".to_owned(),
            Refusal::CronSyntax { expression, .. } => {
                let mut message = "failed to parse cron expression ".to_owned();
                message.append(text::quoted(expression.as_str()).as_str());
                message
            },
            Refusal::NoFutureRun => "cron expression produced no future run".to_owned(),
            Refusal::RunHasPassed { shown } => {
                let mut message =
                    "failed to calculate sleep duration until scheduled run ".to_owned();
                message.append(shown.as_str());
                message
            },
            Refusal::InvalidVolumeName { volume } => {
                let mut message = "invalid volume name ".to_owned();
                message.append(text::quoted(volume.as_str()).as_str());
                message
            },
            Refusal::VolumeMissing { volume, path } => {
                let mut message = "volume ".to_owned();
                message.append(volume.as_str());
                message.append(" does not exist at ");
                message.append(show_bytes(path.as_slice()).as_str());
                message
            },
            Refusal::NoArchives => "no backup archives found".to_owned(),
            Refusal::SftpUrlMissing => "SFTP_URL is required when STORAGE_DRIVER=sftp".to_owned(),
            Refusal::SftpUrlSyntax { .. } => "failed to parse SFTP_URL".to_owned(),
            Refusal::SftpUrlScheme => "SFTP_URL must use ssh:// or sftp://".to_owned(),
            Refusal::SftpUrlHost => "SFTP_URL must include a host".to_owned(),
            Refusal::SftpCredentialsMissing => {
                "SFTP authentication requires SFTP_PRIVATE_KEY, SFTP_PRIVATE_KEY_FILE, SFTP_PASSWORD, or SFTP_PASSWORD_FILE".to_owned()
            },
            Refusal::SftpUnauthenticated => "SSH authentication did not complete".to_owned(),
        }
    }
}

/// Why something came to nothing: the crate refused it, or the program around
/// it failed with `F`.
#[derive(Debug)]
pub enum Failure<F> {
    /// The crate refused.
    Refused(Refusal),
    /// The program failed to carry out a request.
    Outside(F),
}

/// What a refusal is about stands in its message.
pub proof fn law_messages_name_what_was_refused(refusal: Refusal, message: String)
    requires
        call_ensures(Refusal::message, (&refusal,), message),
    ensures
        refusal matches Refusal::CronSyntax { expression, .. } ==> message@
            == "failed to parse cron expression "@ + debug_quoted(expression@),
        refusal matches Refusal::RunHasPassed { shown } ==> message@
            == "failed to calculate sleep duration until scheduled run "@ + shown@,
        refusal matches Refusal::InvalidVolumeName { volume } ==> message@
            == "invalid volume name "@ + debug_quoted(volume@),
        refusal matches Refusal::VolumeMissing { volume, path } ==> message@ == "volume "@ + volume@
            + " does not exist at "@ + lossy_text(path@),
{
}

} // verus!
