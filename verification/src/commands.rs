//! The command executor: what each parsed command does to a repository and
//! what the bot says in reply.

use crate::bot::{Command, ParsedMessage, ParsedView};
use crate::date::{formatted_date, long_pattern, CalendarDate};
use crate::store::{lemma_count_after_insert, scoped, well_formed, Record, RecordView, Store};
use crate::text::{text_of, trim};
use vstd::prelude::*;

verus! {

/// What a repository holds, which decides the wording of the replies.
#[derive(Copy, Clone, PartialEq, Eq, Debug, Structural)]
pub enum Kind {
    Quotes,
    Images,
}

/// What the bot sends back: a text and, for an image, the file to send
/// with it.
pub struct Reply {
    pub text: String,
    pub file: Option<String>,
}

/// The mathematical content of a [`Reply`].
pub struct ReplyView {
    pub text: Seq<char>,
    pub file: Option<Seq<char>>,
}

impl View for Reply {
    type V = ReplyView;

    open spec fn view(&self) -> ReplyView {
        ReplyView { text: self.text@, file: text_of(self.file) }
    }
}

/// The content of an optional reply.
pub open spec fn reply_view(reply: Option<Reply>) -> Option<ReplyView> {
    match reply {
        Some(reply) => Some(reply@),
        None => None,
    }
}

/// A reply of text alone.
pub open spec fn plain(text: Seq<char>) -> ReplyView {
    ReplyView { text, file: None }
}

/// The decimal digit for a number below ten.
pub open spec fn digit(d: nat) -> char {
    ((48 + d) as u8) as char
}

/// The decimal numeral of a number, without leading zeros.
pub open spec fn decimal(n: nat) -> Seq<char>
    decreases n,
{
    if n < 10 {
        seq![digit(n)]
    } else {
        decimal(n / 10).push(digit(n % 10))
    }
}

/// What one record of the kind is called.
pub open spec fn noun(kind: Kind) -> Seq<char> {
    match kind {
        Kind::Quotes => "quote"@,
        Kind::Images => "image"@,
    }
}

/// The reply to a stored record: `Added quote #7.`
pub open spec fn added_text(kind: Kind, id: nat) -> Seq<char> {
    "Added "@ + noun(kind) + " #"@ + decimal(id) + "."@
}

/// The reply to a count: `Fran has 3 quotes saved.`, or `Bot has ...` for
/// the count of all records.
pub open spec fn length_text(kind: Kind, author: Option<Seq<char>>, n: nat) -> Seq<char> {
    let subject = match author {
        Some(name) => name,
        None => "Bot"@,
    };
    subject + " has "@ + decimal(n) + " "@ + noun(kind) + "s saved."@
}

/// A quote as it is shown: `"text" - author (date)`.
pub open spec fn quote_text(payload: Seq<char>, author: Seq<char>, date: Seq<char>) -> Seq<char> {
    "\""@ + payload + "\" - "@ + author + " ("@ + date + ")"@
}

/// The caption of an image: `-author (date)`.
pub open spec fn caption_text(author: Seq<char>, date: Seq<char>) -> Seq<char> {
    "-"@ + author + " ("@ + date + ")"@
}

/// The reply where no author was named for a record to be added.
pub open spec fn member_not_found() -> Seq<char> {
    "Member not found."@
}

/// The reply where the sender may not add records.
pub open spec fn insufficient_privileges() -> Seq<char> {
    "Insufficient privileges."@
}

/// The reply where there is nothing to pick from.
pub open spec fn nothing_saved(kind: Kind) -> Seq<char> {
    "No "@ + noun(kind) + "s saved"@
}

/// The reply where the repository failed.
pub open spec fn failure() -> Seq<char> {
    "Something went wrong."@
}

/// How a record is shown: a quote as its text, author and date; an image as
/// a caption with the file. A record whose date is no day of the calendar
/// cannot be shown and gives the failure reply.
pub open spec fn shown(kind: Kind, record: RecordView) -> ReplyView {
    let date = record.created_date;
    if !date.is_valid() {
        plain(failure())
    } else {
        let day = formatted_date(
            date.year as int,
            date.month as int,
            date.day as int,
            long_pattern(),
        );
        match kind {
            Kind::Quotes => plain(quote_text(record.payload, record.author, day)),
            Kind::Images => ReplyView {
                text: caption_text(record.author, day),
                file: Some(record.payload),
            },
        }
    }
}

/// The text to store for a message: its arguments, or nothing.
pub open spec fn payload_of(message: ParsedView) -> Seq<char> {
    match message.args {
        Some(args) => args,
        None => Seq::empty(),
    }
}

/// Whether a message adds a record: it asks for `Add`, names an author, the
/// sender is privileged and the repository has room.
pub open spec fn adds(records: Seq<RecordView>, message: ParsedView, privileged: bool) -> bool {
    message.command == Command::Add && message.author is Some && privileged && records.len()
        < usize::MAX
}

/// The records after a message was carried out: one more if the message
/// adds a record, with the next identifier, the trimmed payload, the author
/// named and today's date; otherwise the same.
pub open spec fn records_after(
    records: Seq<RecordView>,
    message: ParsedView,
    privileged: bool,
    today: CalendarDate,
) -> Seq<RecordView> {
    if adds(records, message, privileged) {
        records.push(
            RecordView {
                id: (records.len() + 1) as u64,
                payload: trim(payload_of(message)),
                author: message.author->0,
                created_date: today,
            },
        )
    } else {
        records
    }
}

/// The reply to every command but `Random`.
pub open spec fn planned_reply(
    kind: Kind,
    records: Seq<RecordView>,
    message: ParsedView,
    privileged: bool,
) -> Option<ReplyView> {
    match message.command {
        Command::Add => Some(
            plain(
                if message.author is None {
                    member_not_found()
                } else if !privileged {
                    insufficient_privileges()
                } else if records.len() < usize::MAX {
                    added_text(kind, records.len() + 1)
                } else {
                    failure()
                },
            ),
        ),
        Command::Length => Some(
            plain(length_text(kind, message.author, scoped(records, message.author).len())),
        ),
        _ => None,
    }
}

/// Whether `reply` answers `Random`: the nothing-saved reply where the
/// scope of the author is empty, otherwise one of the scope's records,
/// shown.
pub open spec fn answers_random(
    kind: Kind,
    records: Seq<RecordView>,
    author: Option<Seq<char>>,
    reply: Option<ReplyView>,
) -> bool {
    if scoped(records, author).len() == 0 {
        reply == Some(plain(nothing_saved(kind)))
    } else {
        exists|i: int|
            0 <= i < scoped(records, author).len() && reply == Some(
                shown(kind, #[trigger] scoped(records, author)[i]),
            )
    }
}

/// The text of one decimal digit.
fn digit_text(d: u64) -> (text: &'static str)
    requires
        d < 10,
    ensures
        text@ == seq![digit(d as nat)],
{
    proof {
        reveal_strlit("0");
        reveal_strlit("1");
        reveal_strlit("2");
        reveal_strlit("3");
        reveal_strlit("4");
        reveal_strlit("5");
        reveal_strlit("6");
        reveal_strlit("7");
        reveal_strlit("8");
        reveal_strlit("9");
    }
    let text = if d == 0 {
        "0"
    } else if d == 1 {
        "1"
    } else if d == 2 {
        "2"
    } else if d == 3 {
        "3"
    } else if d == 4 {
        "4"
    } else if d == 5 {
        "5"
    } else if d == 6 {
        "6"
    } else if d == 7 {
        "7"
    } else if d == 8 {
        "8"
    } else {
        "9"
    };
    assert(text@ =~= seq![digit(d as nat)]);
    text
}

/// The decimal numeral of a number.
pub fn decimal_text(n: u64) -> (text: String)
    ensures
        text@ == decimal(n as nat),
    decreases n,
{
    if n < 10 {
        digit_text(n).to_owned()
    } else {
        let mut text = decimal_text(n / 10);
        text.append(digit_text(n % 10));
        text
    }
}

/// The wording for one record of the kind.
fn noun_text(kind: Kind) -> (text: &'static str)
    ensures
        text@ == noun(kind),
{
    match kind {
        Kind::Quotes => "quote",
        Kind::Images => "image",
    }
}

/// The reply to a stored record.
pub fn added_reply(kind: Kind, id: u64) -> (reply: Reply)
    ensures
        reply@ == plain(added_text(kind, id as nat)),
{
    let mut text = "Added ".to_owned();
    text.append(noun_text(kind));
    text.append(" #");
    text.append(decimal_text(id).as_str());
    text.append(".");
    Reply { text, file: None }
}

/// The reply to a count.
pub fn length_reply(kind: Kind, author: &Option<String>, n: u64) -> (reply: Reply)
    ensures
        reply@ == plain(length_text(kind, text_of(*author), n as nat)),
{
    let mut text = match author {
        Some(name) => name.clone(),
        None => "Bot".to_owned(),
    };
    text.append(" has ");
    text.append(decimal_text(n).as_str());
    text.append(" ");
    text.append(noun_text(kind));
    text.append("s saved.");
    Reply { text, file: None }
}

/// A reply of the given text alone.
pub fn plain_reply(text: &str) -> (reply: Reply)
    ensures
        reply@ == plain(text@),
{
    Reply { text: text.to_owned(), file: None }
}

/// The reply where the repository failed.
pub fn failure_reply() -> (reply: Reply)
    ensures
        reply@ == plain(failure()),
{
    plain_reply("Something went wrong.")
}

/// The reply where there is nothing to pick from.
pub fn nothing_saved_reply(kind: Kind) -> (reply: Reply)
    ensures
        reply@ == plain(nothing_saved(kind)),
{
    let mut text = "No ".to_owned();
    text.append(noun_text(kind));
    text.append("s saved");
    Reply { text, file: None }
}

/// A quote as it is shown, with the date already rendered.
pub fn quote_reply(payload: &str, author: &str, day: &str) -> (reply: Reply)
    ensures
        reply@ == plain(quote_text(payload@, author@, day@)),
{
    let mut text = "\"".to_owned();
    text.append(payload);
    text.append("\" - ");
    text.append(author);
    text.append(" (");
    text.append(day);
    text.append(")");
    Reply { text, file: None }
}

/// An image as it is shown: the caption, with the date already rendered,
/// and the file.
pub fn image_reply(file: &str, author: &str, day: &str) -> (reply: Reply)
    ensures
        reply@ == (ReplyView { text: caption_text(author@, day@), file: Some(file@) }),
{
    let mut text = "-".to_owned();
    text.append(author);
    text.append(" (");
    text.append(day);
    text.append(")");
    Reply { text, file: Some(file.to_owned()) }
}

/// The reply that shows a record.
pub fn show(kind: Kind, record: &Record) -> (reply: Reply)
    ensures
        reply@ == shown(kind, record@),
{
    match record.created_date.long_text() {
        Err(_) => failure_reply(),
        Ok(day) => match kind {
            Kind::Quotes => quote_reply(
                record.payload.as_str(),
                record.author.as_str(),
                day.as_str(),
            ),
            Kind::Images => image_reply(
                record.payload.as_str(),
                record.author.as_str(),
                day.as_str(),
            ),
        },
    }
}

/// Carries out `Add`: stores `text` under the author named, dated today,
/// and says under which identifier. Without an author nothing is stored
/// and the reply says so; the same holds for a sender without the
/// privilege, and for a repository that has no room.
pub fn add(
    kind: Kind,
    store: &mut Store,
    author: &Option<String>,
    text: &str,
    privileged: bool,
    today: CalendarDate,
) -> (reply: Reply)
    ensures
        final(store)@ == records_after(
            old(store)@,
            ParsedView { command: Command::Add, author: text_of(*author), args: Some(text@) },
            privileged,
            today,
        ),
        well_formed(old(store)@) ==> well_formed(final(store)@),
        Some(reply@) == planned_reply(
            kind,
            old(store)@,
            ParsedView { command: Command::Add, author: text_of(*author), args: Some(text@) },
            privileged,
        ),
{
    match author {
        None => plain_reply("Member not found."),
        Some(name) => {
            if !privileged {
                return plain_reply("Insufficient privileges.");
            }
            match store.insert(name.as_str(), text, today) {
                Ok(id) => added_reply(kind, id),
                Err(_) => failure_reply(),
            }
        },
    }
}

/// Carries out `Length`: says how many records the author has, or how many
/// there are in all.
pub fn amount(kind: Kind, store: &Store, author: &Option<String>) -> (reply: Reply)
    ensures
        reply@ == plain(
            length_text(kind, text_of(*author), scoped(store@, text_of(*author)).len()),
        ),
{
    let n = store.count(author);
    length_reply(kind, author, n as u64)
}

/// Carries out `Random`: shows one record of the author, or of all
/// records, drawn at random; where there is none, says so.
pub fn random(kind: Kind, store: &Store, author: &Option<String>) -> (reply: Reply)
    ensures
        answers_random(kind, store@, text_of(*author), Some(reply@)),
{
    match store.random_fetch(author) {
        Ok(record) => {
            let reply = show(kind, &record);
            proof {
                let scope = scoped(store@, text_of(*author));
                let i = choose|i: int| 0 <= i < scope.len() && scope[i] == record@;
                assert(reply@ == shown(kind, scope[i]));
            }
            reply
        },
        Err(_) => nothing_saved_reply(kind),
    }
}

/// Carries out a parsed command on a repository and gives the reply.
///
/// `Add` stores the arguments under the author named, dated today, if the
/// sender is privileged; `Length` counts the records of the author, or all
/// records; `Random` shows one record of the author, or of all, drawn at
/// random. No other command does or says anything.
pub fn execute(
    kind: Kind,
    store: &mut Store,
    message: &ParsedMessage,
    privileged: bool,
    today: CalendarDate,
) -> (reply: Option<Reply>)
    ensures
        final(store)@ == records_after(old(store)@, message@, privileged, today),
        well_formed(old(store)@) ==> well_formed(final(store)@),
        message.command != Command::Random ==> reply_view(reply) == planned_reply(
            kind,
            old(store)@,
            message@,
            privileged,
        ),
        message.command == Command::Random ==> answers_random(
            kind,
            old(store)@,
            message@.author,
            reply_view(reply),
        ),
{
    match message.command {
        Command::Add => {
            let text = match &message.args {
                Some(args) => args.as_str(),
                None => "",
            };
            proof {
                reveal_strlit("");
                assert(text@ =~= payload_of(message@));
            }
            Some(self::add(kind, store, &message.author, text, privileged, today))
        },
        Command::Length => Some(amount(kind, store, &message.author)),
        Command::Random => Some(random(kind, store, &message.author)),
        _ => None,
    }
}

/// How the transfer of an attachment to the image directory ended.
#[derive(Copy, Clone, PartialEq, Eq, Debug, Structural)]
pub enum Transfer {
    /// The attachment could not be downloaded.
    DownloadFailed,
    /// The file could not be created.
    CreateFailed,
    /// The file could not be written.
    WriteFailed,
    /// The file is in place.
    Written,
}

/// Whether a message asks for the attachments that came with it to be
/// saved: it asks the image repository for `Add`, names an author, and the
/// sender is privileged.
pub fn wants_attachments(kind: Kind, message: &ParsedMessage, privileged: bool) -> (b: bool)
    ensures
        b == (kind == Kind::Images && message.command == Command::Add && message.author is Some
            && privileged),
{
    let images = match kind {
        Kind::Images => true,
        Kind::Quotes => false,
    };
    let adding = match message.command {
        Command::Add => true,
        _ => false,
    };
    images && adding && message.author.is_some() && privileged
}

/// What the bot says of a transfer.
pub open spec fn transfer_text(transfer: Transfer, file_name: Seq<char>) -> Seq<char> {
    match transfer {
        Transfer::DownloadFailed => "[Save] Error downloading image"@,
        Transfer::CreateFailed => "[Save] Error creating file"@,
        Transfer::WriteFailed => "[Save] Error writing to file"@,
        Transfer::Written => "Saved \""@ + file_name + "\""@,
    }
}

/// What saving one attachment comes to: what the bot says of the transfer,
/// what it says of the record, if it tried to store one, and whether the
/// remaining attachments are to be taken up.
pub struct SaveStep {
    pub notice: Reply,
    pub added: Option<Reply>,
    pub proceed: bool,
}

/// Takes one attachment into the image repository after its transfer. A
/// transfer that failed is reported, nothing is stored and the remaining
/// attachments are left alone. A file that is in place is reported and
/// stored under `author`, dated today, with its name as the payload.
pub fn save(
    store: &mut Store,
    author: &str,
    file_name: &str,
    transfer: Transfer,
    today: CalendarDate,
) -> (step: SaveStep)
    ensures
        step.notice@ == plain(transfer_text(transfer, file_name@)),
        step.proceed == (transfer == Transfer::Written),
        transfer != Transfer::Written ==> step.added is None && final(store)@ == old(store)@,
        transfer == Transfer::Written ==> final(store)@ == records_after(
            old(store)@,
            ParsedView { command: Command::Add, author: Some(author@), args: Some(file_name@) },
            true,
            today,
        ) && reply_view(step.added) == planned_reply(
            Kind::Images,
            old(store)@,
            ParsedView { command: Command::Add, author: Some(author@), args: Some(file_name@) },
            true,
        ),
        well_formed(old(store)@) ==> well_formed(final(store)@),
{
    match transfer {
        Transfer::DownloadFailed => SaveStep {
            notice: plain_reply("[Save] Error downloading image"),
            added: None,
            proceed: false,
        },
        Transfer::CreateFailed => SaveStep {
            notice: plain_reply("[Save] Error creating file"),
            added: None,
            proceed: false,
        },
        Transfer::WriteFailed => SaveStep {
            notice: plain_reply("[Save] Error writing to file"),
            added: None,
            proceed: false,
        },
        Transfer::Written => {
            let mut text = "Saved \"".to_owned();
            text.append(file_name);
            text.append("\"");
            let named = Some(author.to_owned());
            let added = self::add(Kind::Images, store, &named, file_name, true, today);
            SaveStep { notice: Reply { text, file: None }, added: Some(added), proceed: true }
        },
    }
}

/// Carrying out a command never takes a record away or changes one, and it
/// adds one only for `Add` with an author named and a privileged sender.
pub proof fn lemma_records_only_grow(
    records: Seq<RecordView>,
    message: ParsedView,
    privileged: bool,
    today: CalendarDate,
)
    ensures
        records.is_prefix_of(records_after(records, message, privileged, today)),
        records_after(records, message, privileged, today).len() <= records.len() + 1,
        records_after(records, message, privileged, today) != records ==> message.command
            == Command::Add && message.author is Some && privileged,
{
    let after = records_after(records, message, privileged, today);
    assert(after.subrange(0, records.len() as int) =~= records);
}

/// A record that was added is found by a count in the scope of its author
/// right after: that count is one more than it was before.
pub proof fn lemma_added_record_is_counted(
    records: Seq<RecordView>,
    message: ParsedView,
    privileged: bool,
    today: CalendarDate,
)
    requires
        adds(records, message, privileged),
    ensures
        scoped(records_after(records, message, privileged, today), message.author).len() == scoped(
            records,
            message.author,
        ).len() + 1,
        records_after(records, message, privileged, today).last().payload == trim(
            payload_of(message),
        ),
{
    let after = records_after(records, message, privileged, today);
    lemma_count_after_insert(records, after.last(), message.author);
    assert(after.drop_last() =~= records);
}

/// A reply that answers `Random` for quotes carries no file.
pub proof fn lemma_quote_replies_are_plain(
    records: Seq<RecordView>,
    author: Option<Seq<char>>,
    reply: ReplyView,
)
    requires
        answers_random(Kind::Quotes, records, author, Some(reply)),
    ensures
        reply == plain(reply.text),
{
}

} // verus!
