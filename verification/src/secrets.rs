//! Keeping refresh tokens in the Secret Service, with the command-line tool `secret-tool`.
use vstd::prelude::*;

use crate::error::{failure, safe_message, shown_message, CalendarError, ErrorView, Result};
use crate::text::{optional_view, texts, trim, trimmed};

verus! {

/// Under what name the secrets are kept.
pub const SECRET_SERVICE: &'static str = "omarchy-calendar";

/// How long the tool may take, in seconds.
pub const SECRET_TOOL_TIMEOUT_SECONDS: u64 = 30;

/// The store of refresh tokens.
#[derive(Debug)]
pub struct SecretStore {
    executable: Option<String>,
}

/// A call of the tool.
#[derive(Debug)]
pub struct SecretCommand {
    pub executable: String,
    pub arguments: Vec<String>,
    pub input: Option<String>,
    pub capture_output: bool,
}

/// What a call of the tool holds.
pub struct CommandView {
    pub executable: Seq<char>,
    pub arguments: Seq<Seq<char>>,
    pub input: Option<Seq<char>>,
    pub capture_output: bool,
}

impl View for SecretCommand {
    type V = CommandView;

    open spec fn view(&self) -> CommandView {
        CommandView {
            executable: self.executable@,
            arguments: texts(self.arguments@),
            input: optional_view(self.input),
            capture_output: self.capture_output,
        }
    }
}

/// What came of a call of the tool.
#[derive(Debug)]
pub enum ToolOutcome {
    /// It could not be run, or took too long.
    Failed,
    /// It ended, with this status where it was not stopped by a signal.
    Exited { status: Option<i32>, stdout: String, stderr: String },
}

/// Says that the tool is not installed.
pub open spec fn tool_missing() -> ErrorView {
    failure("secret_service_unavailable"@, "secret-tool is not installed"@)
}

/// Says that the tool failed.
pub open spec fn tool_failed(message: Seq<char>) -> ErrorView {
    failure("secret_service_error"@, message)
}

/// What is kept of an account, as arguments of the tool.
pub open spec fn attributes(account_id: Seq<char>) -> Seq<Seq<char>> {
    seq!["service"@, SECRET_SERVICE@, "account-id"@, account_id]
}

/// The call that keeps a refresh token. It is handed over as input, never as an argument.
pub open spec fn store_command(
    executable: Seq<char>,
    account_id: Seq<char>,
    refresh_token: Seq<char>,
) -> CommandView {
    CommandView {
        executable,
        arguments: seq!["store"@, "--label=Omarchy Calendar Google account"@] + attributes(
            account_id,
        ),
        input: Some(refresh_token),
        capture_output: false,
    }
}

/// The call that reads a refresh token.
pub open spec fn lookup_command(executable: Seq<char>, account_id: Seq<char>) -> CommandView {
    CommandView {
        executable,
        arguments: seq!["lookup"@] + attributes(account_id),
        input: None,
        capture_output: true,
    }
}

/// The call that drops a refresh token.
pub open spec fn clear_command(executable: Seq<char>, account_id: Seq<char>) -> CommandView {
    CommandView {
        executable,
        arguments: seq!["clear"@] + attributes(account_id),
        input: None,
        capture_output: false,
    }
}

/// No refresh token is ever an argument, which other processes of the machine could read: the
/// arguments of the call that keeps one do not depend on it.
pub proof fn token_is_no_argument(
    executable: Seq<char>,
    account_id: Seq<char>,
    token: Seq<char>,
    other: Seq<char>,
)
    ensures
        store_command(executable, account_id, token).arguments == store_command(
            executable,
            account_id,
            other,
        ).arguments,
        store_command(executable, account_id, token).executable == executable,
{
}

/// Whether a status means success.
pub open spec fn ended_well(status: Option<i32>) -> bool {
    status == Some(0i32)
}

/// What a call that keeps a refresh token came to.
pub open spec fn store_outcome(outcome: ToolOutcome) -> std::result::Result<(), ErrorView> {
    match outcome {
        ToolOutcome::Failed => Err(tool_failed("Could not store Google credentials"@)),
        ToolOutcome::Exited { status, stdout, stderr } => if ended_well(status) {
            Ok(())
        } else {
            Err(tool_failed(shown_message(stderr@, "Could not store Google credentials"@)))
        },
    }
}

/// What a call that reads a refresh token came to.
pub open spec fn lookup_outcome(outcome: ToolOutcome) -> std::result::Result<
    Seq<char>,
    ErrorView,
> {
    match outcome {
        ToolOutcome::Failed => Err(tool_failed("Could not read Google credentials"@)),
        ToolOutcome::Exited { status, stdout, stderr } => if ended_well(status) && trimmed(
            stdout@,
        ).len() > 0 {
            Ok(trimmed(stdout@))
        } else {
            Err(failure("credentials_missing"@, "Google account needs reconnection"@))
        },
    }
}

/// What a call that drops a refresh token came to: that there was none is no failure.
pub open spec fn clear_outcome(outcome: ToolOutcome) -> std::result::Result<(), ErrorView> {
    match outcome {
        ToolOutcome::Failed => Err(tool_failed("Could not remove Google credentials"@)),
        ToolOutcome::Exited { status, stdout, stderr } => if ended_well(status) || status == Some(
            1i32,
        ) {
            Ok(())
        } else {
            Err(tool_failed(shown_message(stderr@, "Could not remove Google credentials"@)))
        },
    }
}

/// What is kept of an account is read and dropped by the same attributes under which it was kept,
/// and those of another account differ from them. The token is the input of the call that keeps it,
/// and only the call that reads one takes in what the tool writes.
pub proof fn secrets_are_found_where_they_were_kept(
    executable: Seq<char>,
    account_id: Seq<char>,
    other_id: Seq<char>,
    token: Seq<char>,
)
    ensures
        ({
            let store = store_command(executable, account_id, token);
            let lookup = lookup_command(executable, account_id);
            let clear = clear_command(executable, account_id);
            let attributes = seq!["service"@, "omarchy-calendar"@, "account-id"@, account_id];
            &&& store.arguments == seq!["store"@, "--label=Omarchy Calendar Google account"@]
                + attributes
            &&& lookup.arguments == seq!["lookup"@] + attributes
            &&& clear.arguments == seq!["clear"@] + attributes
            &&& store.input == Some(token) && !store.capture_output
            &&& lookup.input is None && lookup.capture_output
            &&& clear.input is None && !clear.capture_output
            &&& store.executable == executable && lookup.executable == executable
                && clear.executable == executable
            &&& account_id != other_id ==> lookup.arguments != lookup_command(
                executable,
                other_id,
            ).arguments && clear.arguments != clear_command(executable, other_id).arguments
        }),
{
    let lookup = lookup_command(executable, account_id).arguments;
    let clear = clear_command(executable, account_id).arguments;
    assert(lookup[4] == account_id && lookup_command(executable, other_id).arguments[4]
        == other_id);
    assert(clear[4] == account_id && clear_command(executable, other_id).arguments[4] == other_id);
}

/// A token was kept exactly where the tool ended with status zero. It was read exactly where the tool
/// ended so and wrote something, and is that without the white space around it; else the account has
/// to sign in again, unless the tool could not be run. It was dropped where the tool ended with
/// status zero or found none.
pub proof fn tool_outcomes_are_read(status: Option<i32>, stdout: String, stderr: String)
    ensures
        ({
            let outcome = ToolOutcome::Exited { status, stdout, stderr };
            let failed = ToolOutcome::Failed;
            let written = trimmed(stdout@);
            &&& store_outcome(outcome) is Ok <==> status == Some(0i32)
            &&& store_outcome(outcome) matches Err(error) ==> error.code
                == "secret_service_error"@
            &&& status == Some(0i32) && written.len() > 0 ==> lookup_outcome(outcome) == Ok::<
                _,
                ErrorView,
            >(written)
            &&& status != Some(0i32) || written.len() == 0 ==> (lookup_outcome(
                outcome,
            ) matches Err(error) && error.code == "credentials_missing"@)
            &&& clear_outcome(outcome) is Ok <==> status == Some(0i32) || status == Some(1i32)
            &&& clear_outcome(outcome) matches Err(error) ==> error.code
                == "secret_service_error"@
            &&& store_outcome(failed) matches Err(error) && error.code == "secret_service_error"@
            &&& lookup_outcome(failed) matches Err(error) && error.code == "secret_service_error"@
            &&& clear_outcome(failed) matches Err(error) && error.code == "secret_service_error"@
        }),
{
}

impl SecretStore {
    /// Where the tool is installed.
    pub closed spec fn executable_view(&self) -> Option<Seq<char>> {
        optional_view(self.executable)
    }

    /// The store, with the place where the tool is installed.
    pub fn new(executable: Option<String>) -> (store: SecretStore)
        ensures
            store.executable_view() == optional_view(executable),
    {
        SecretStore { executable }
    }

    fn executable(&self) -> (executable: Result<String>)
        ensures
            match executable {
                Ok(executable) => self.executable_view() == Some(executable@),
                Err(error) => self.executable_view() is None && error@ == tool_missing(),
            },
    {
        match &self.executable {
            Some(executable) => Ok(executable.clone()),
            None => Err(
                CalendarError::new("secret_service_unavailable", "secret-tool is not installed"),
            ),
        }
    }

    /// The call that keeps a refresh token.
    pub fn store(&self, account_id: &str, refresh_token: &str) -> (command: Result<SecretCommand>)
        ensures
            match command {
                Ok(command) => self.executable_view() matches Some(executable) && command@
                    == store_command(executable, account_id@, refresh_token@),
                Err(error) => self.executable_view() is None && error@ == tool_missing(),
            },
    {
        let executable: String = match self.executable() {
            Ok(executable) => executable,
            Err(error) => return Err(error),
        };
        let mut arguments: Vec<String> = Vec::new();
        arguments.push("store".to_owned());
        arguments.push("--label=Omarchy Calendar Google account".to_owned());
        arguments.push("service".to_owned());
        arguments.push(SECRET_SERVICE.to_owned());
        arguments.push("account-id".to_owned());
        arguments.push(account_id.to_owned());
        let ghost name = executable@;
        let command = SecretCommand {
            executable,
            arguments,
            input: Some(refresh_token.to_owned()),
            capture_output: false,
        };
        assert(command@.arguments =~= store_command(
            name,
            account_id@,
            refresh_token@,
        ).arguments);
        Ok(command)
    }

    /// The call that reads a refresh token.
    pub fn lookup(&self, account_id: &str) -> (command: Result<SecretCommand>)
        ensures
            match command {
                Ok(command) => self.executable_view() matches Some(executable) && command@
                    == lookup_command(executable, account_id@),
                Err(error) => self.executable_view() is None && error@ == tool_missing(),
            },
    {
        let executable: String = match self.executable() {
            Ok(executable) => executable,
            Err(error) => return Err(error),
        };
        let mut arguments: Vec<String> = Vec::new();
        arguments.push("lookup".to_owned());
        arguments.push("service".to_owned());
        arguments.push(SECRET_SERVICE.to_owned());
        arguments.push("account-id".to_owned());
        arguments.push(account_id.to_owned());
        let ghost name = executable@;
        let command = SecretCommand { executable, arguments, input: None, capture_output: true };
        assert(command@.arguments =~= lookup_command(name, account_id@).arguments);
        Ok(command)
    }

    /// The call that drops a refresh token.
    pub fn clear(&self, account_id: &str) -> (command: Result<SecretCommand>)
        ensures
            match command {
                Ok(command) => self.executable_view() matches Some(executable) && command@
                    == clear_command(executable, account_id@),
                Err(error) => self.executable_view() is None && error@ == tool_missing(),
            },
    {
        let executable: String = match self.executable() {
            Ok(executable) => executable,
            Err(error) => return Err(error),
        };
        let mut arguments: Vec<String> = Vec::new();
        arguments.push("clear".to_owned());
        arguments.push("service".to_owned());
        arguments.push(SECRET_SERVICE.to_owned());
        arguments.push("account-id".to_owned());
        arguments.push(account_id.to_owned());
        let ghost name = executable@;
        let command = SecretCommand { executable, arguments, input: None, capture_output: false };
        assert(command@.arguments =~= clear_command(name, account_id@).arguments);
        Ok(command)
    }
}

fn succeeded(status: Option<i32>) -> (result: bool)
    ensures
        result == ended_well(status),
{
    match status {
        Some(status) => status == 0,
        None => false,
    }
}

/// Reads what a call that keeps a refresh token came to.
pub fn read_store(outcome: &ToolOutcome) -> (result: Result<()>)
    ensures
        match result {
            Ok(_) => store_outcome(*outcome) == Ok::<(), ErrorView>(()),
            Err(error) => store_outcome(*outcome) == Err::<(), _>(error@),
        },
{
    match outcome {
        ToolOutcome::Failed => Err(
            CalendarError::new("secret_service_error", "Could not store Google credentials"),
        ),
        ToolOutcome::Exited { status, stdout, stderr } => if succeeded(*status) {
            Ok(())
        } else {
            Err(
                CalendarError::new(
                    "secret_service_error",
                    safe_message(stderr.as_str(), "Could not store Google credentials").as_str(),
                ),
            )
        },
    }
}

/// Reads what a call that reads a refresh token came to.
pub fn read_lookup(outcome: &ToolOutcome) -> (token: Result<String>)
    ensures
        match token {
            Ok(token) => lookup_outcome(*outcome) == Ok::<_, ErrorView>(token@),
            Err(error) => lookup_outcome(*outcome) == Err::<Seq<char>, _>(error@),
        },
{
    match outcome {
        ToolOutcome::Failed => Err(
            CalendarError::new("secret_service_error", "Could not read Google credentials"),
        ),
        ToolOutcome::Exited { status, stdout, stderr } => {
            let token: String = trim(stdout.as_str());
            if succeeded(*status) && !token.as_str().is_empty() {
                Ok(token)
            } else {
                Err(CalendarError::new("credentials_missing", "Google account needs reconnection"))
            }
        },
    }
}

/// Reads what a call that drops a refresh token came to.
pub fn read_clear(outcome: &ToolOutcome) -> (result: Result<()>)
    ensures
        match result {
            Ok(_) => clear_outcome(*outcome) == Ok::<(), ErrorView>(()),
            Err(error) => clear_outcome(*outcome) == Err::<(), _>(error@),
        },
{
    match outcome {
        ToolOutcome::Failed => Err(
            CalendarError::new("secret_service_error", "Could not remove Google credentials"),
        ),
        ToolOutcome::Exited { status, stdout, stderr } => {
            let absent: bool = match status {
                Some(status) => *status == 1,
                None => false,
            };
            if succeeded(*status) || absent {
                Ok(())
            } else {
                Err(
                    CalendarError::new(
                        "secret_service_error",
                        safe_message(
                            stderr.as_str(),
                            "Could not remove Google credentials",
                        ).as_str(),
                    ),
                )
            }
        },
    }
}

} // verus!
