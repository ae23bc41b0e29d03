//! Plugins: virtual recipients whose nick begins with a reserved prefix.
//!
//! A private message to such a nick is not delivered to a user. The plugin
//! named by the nick reads the text and, where it accepts it, schedules one
//! reply. This module decides what is scheduled; waiting and writing are the
//! caller's part. When the wait is over the caller asks `PluginJob::reply`
//! for the delivery, so a receiver who has gone by then gets nothing.
use vstd::prelude::*;
use vstd::string::*;
use crate::text::{
    decimal_value, find_char, first_index, has_prefix, is_u64_text, lemma_first_index,
    parse_u64, same_text, starts_with, unsigned_part,
};
use crate::types::{privmsg_line, ErrorType, Nick};
use crate::user::{has_nick, nick_index, Delivery, DeliveryView, UserList, UserView};

verus! {

/// A reply that a plugin has scheduled.
#[derive(Clone, Debug, PartialEq, Eq)]
pub struct PluginJob {
    /// How long to wait before the reply is due.
    pub delay_seconds: u64,
    /// The nick under which the plugin answers.
    pub plugin_nick: Nick,
    /// The nick of the user that the reply is for.
    pub receiver_nick: Nick,
    /// The text of the reply.
    pub text: String,
}

/// A scheduled reply as plain values.
pub struct JobView {
    pub delay_seconds: u64,
    pub plugin_nick: Seq<char>,
    pub receiver_nick: Seq<char>,
    pub text: Seq<char>,
}

impl View for PluginJob {
    type V = JobView;

    open spec fn view(&self) -> JobView {
        JobView {
            delay_seconds: self.delay_seconds,
            plugin_nick: self.plugin_nick@,
            receiver_nick: self.receiver_nick@,
            text: self.text@,
        }
    }
}

/// Whether a nick names a plugin.
pub open spec fn is_plugin_nick(nick: Seq<char>) -> bool {
    has_prefix(nick, "use_plugin_"@)
}

/// What the sample plugin schedules: the text itself, at once.
pub open spec fn sample_job(receiver: Seq<char>, text: Seq<char>) -> JobView {
    JobView { delay_seconds: 0, plugin_nick: "plugin_sample"@, receiver_nick: receiver, text }
}

/// What the reminder plugin makes of `text`: the seconds before the first
/// space, the sentence after it. A text without a space, or whose first word
/// is no number of 64 bits, is refused.
pub open spec fn reminder_job(receiver: Seq<char>, text: Seq<char>) -> Result<JobView, ErrorType> {
    let cut = first_index(text, ' ');
    let word = text.subrange(0, cut);
    if cut < text.len() && is_u64_text(word) {
        Ok(
            JobView {
                delay_seconds: decimal_value(unsigned_part(word)) as u64,
                plugin_nick: "plugin_reminder"@,
                receiver_nick: receiver,
                text: text.subrange(cut + 1, text.len() as int),
            },
        )
    } else {
        Err(ErrorType::PluginCommandError)
    }
}

/// What a message `text` to the plugin `target` schedules for `receiver`.
pub open spec fn plugin_job(target: Seq<char>, receiver: Seq<char>, text: Seq<char>) -> Result<
    JobView,
    ErrorType,
> {
    if target == "use_plugin_sample"@ {
        Ok(sample_job(receiver, text))
    } else if target == "use_plugin_reminder"@ {
        reminder_job(receiver, text)
    } else {
        Err(ErrorType::PluginCommandError)
    }
}

/// The result of a plugin call as plain values.
pub open spec fn job_result_view(r: Result<PluginJob, ErrorType>) -> Result<JobView, ErrorType> {
    match r {
        Ok(job) => Ok(job@),
        Err(e) => Err(e),
    }
}

/// What a due job delivers: one private message to the receiver, if a user
/// is still found under that nick.
pub open spec fn job_delivery(users: Seq<UserView>, job: JobView) -> Option<DeliveryView> {
    if has_nick(users, job.receiver_nick) {
        Some(
            DeliveryView {
                to: users[nick_index(users, job.receiver_nick)].id,
                line: privmsg_line(job.plugin_nick, job.receiver_nick, job.text),
            },
        )
    } else {
        None
    }
}

/// Whether `nick` names a plugin.
pub fn names_plugin(nick: &str) -> (r: bool)
    ensures
        r == is_plugin_nick(nick@),
{
    starts_with(nick, "use_plugin_")
}

/// Hands a message for the plugin `target_nick` to that plugin. An unknown
/// plugin, or a text that the plugin cannot read, is a plugin command error.
pub fn plugin_handler(target_nick: Nick, receiver_nick: Nick, message_str: &str) -> (r: Result<
    PluginJob,
    ErrorType,
>)
    ensures
        job_result_view(r) == plugin_job(target_nick@, receiver_nick@, message_str@),
{
    if same_text(target_nick.0.as_str(), "use_plugin_sample") {
        use_plugin_sample(message_str, receiver_nick)
    } else if same_text(target_nick.0.as_str(), "use_plugin_reminder") {
        use_plugin_reminder(message_str, receiver_nick)
    } else {
        Err(ErrorType::PluginCommandError)
    }
}

/// The sample plugin: it repeats the message to its sender at once.
pub fn use_plugin_sample(message_str: &str, receiver_nick: Nick) -> (r: Result<
    PluginJob,
    ErrorType,
>)
    ensures
        job_result_view(r) == Ok::<JobView, ErrorType>(sample_job(receiver_nick@, message_str@)),
{
    Ok(
        PluginJob {
            delay_seconds: 0,
            plugin_nick: Nick(String::from_str("plugin_sample")),
            receiver_nick,
            text: message_str.to_owned(),
        },
    )
}

/// The reminder plugin: `"<seconds> <sentence>"` sends the sentence back
/// after that many seconds.
pub fn use_plugin_reminder(message_str: &str, receiver_nick: Nick) -> (r: Result<
    PluginJob,
    ErrorType,
>)
    ensures
        job_result_view(r) == reminder_job(receiver_nick@, message_str@),
{
    let n = message_str.unicode_len();
    let cut = find_char(message_str, ' ', 0);
    proof {
        lemma_first_index(message_str@, ' ', cut as int);
    }
    if cut >= n {
        return Err(ErrorType::PluginCommandError);
    }
    let word = message_str.substring_char(0, cut);
    match parse_u64(word) {
        Some(seconds) => Ok(
            PluginJob {
                delay_seconds: seconds,
                plugin_nick: Nick(String::from_str("plugin_reminder")),
                receiver_nick,
                text: message_str.substring_char(cut + 1, n).to_owned(),
            },
        ),
        None => Err(ErrorType::PluginCommandError),
    }
}

impl PluginJob {
    /// What to deliver now that the job is due: the reply, addressed to the
    /// receiver's connection, or nothing where the receiver has gone.
    pub fn reply(&self, users: &UserList) -> (d: Option<Delivery>)
        requires
            users.wf(),
        ensures
            match d {
                Some(d) => job_delivery(users@, self@) == Some(d@),
                None => job_delivery(users@, self@) is None,
            },
    {
        match users.find_by_nick(self.receiver_nick.0.as_str()) {
            Some(i) => {
                let mut line = String::from_str(":");
                line.append(self.plugin_nick.0.as_str());
                line.append(" PRIVMSG ");
                line.append(self.receiver_nick.0.as_str());
                line.append(" :");
                line.append(self.text.as_str());
                line.append("\r\n");
                Some(users.get(i).send_line(&line))
            },
            None => None,
        }
    }
}

} // verus!
