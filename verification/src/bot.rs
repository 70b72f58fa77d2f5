//! The message interpreter: a directory of members, a registry of command
//! keywords, and the parser that reads a chat message with both.

use crate::commands::{
    amount, answers_random, lemma_quote_replies_are_plain, length_text, plain, planned_reply,
    random, records_after, Kind,
};
use crate::config::Config;
use crate::date::CalendarDate;
use crate::store::{scoped, well_formed, Store};
use crate::table::Table;
use crate::text::{
    is_whitespace, join, join_slices, lemma_join_split, lemma_split_at_separator, lemma_split_ends,
    lemma_split_without_separator, lemma_trim_after_space, lemma_trim_between_spaces,
    lemma_trim_is_trimmed, lemma_trim_space, lower, lowered,
    slices, split, split_bounds, starts_with, text_of, to_chars, trim, trim_bounds,
};
use vstd::prelude::*;

verus! {

/// What a message asks the bot to do. `IgnoreMsg` stands for "nothing": no
/// parsed message ever carries it.
#[derive(Copy, Clone, PartialEq, Eq, Debug, Structural)]
pub enum Command {
    Add,
    Remove,
    Length,
    Random,
    IgnoreMsg,
}

/// A message addressed to the bot, taken apart.
pub struct ParsedMessage {
    pub command: Command,
    pub author: Option<String>,
    pub args: Option<String>,
}

/// The mathematical content of a [`ParsedMessage`].
pub struct ParsedView {
    pub command: Command,
    pub author: Option<Seq<char>>,
    pub args: Option<Seq<char>>,
}

impl View for ParsedMessage {
    type V = ParsedView;

    open spec fn view(&self) -> ParsedView {
        ParsedView {
            command: self.command,
            author: text_of(self.author),
            args: text_of(self.args),
        }
    }
}

/// The content of an optional parsed message.
pub open spec fn parsed_view(p: Option<ParsedMessage>) -> Option<ParsedView> {
    match p {
        Some(p) => Some(p@),
        None => None,
    }
}

/// The tokens of a message that begins with a prefix of `prefix_len`
/// characters: what follows the prefix, trimmed and split on single spaces.
pub open spec fn tokens_of(prefix_len: nat, message: Seq<char>) -> Seq<Seq<char>> {
    split(trim(message.skip(prefix_len as int)), ' ')
}

/// The author that a token list names: the member whose alias is the ASCII
/// lower-case form of the first token, if there is one.
pub open spec fn author_of(members: Map<Seq<char>, Seq<char>>, tokens: Seq<Seq<char>>) -> Option<
    Seq<char>,
> {
    if tokens.len() > 0 && members.contains_key(lower(tokens[0])) {
        Some(members[lower(tokens[0])])
    } else {
        None
    }
}

/// What a message means to a bot with the given prefix, members and
/// commands.
///
/// A message that does not begin with the prefix means nothing. Otherwise
/// the rest is trimmed and split on single spaces. A first token that is a
/// member's alias names the author and is taken off. If no token is left,
/// or the next one is empty, the command is `Random` without arguments. If
/// the next token is a command keyword, it is taken off and the remaining
/// tokens, joined by single spaces, are the arguments. Any other token, or
/// a keyword bound to `IgnoreMsg`, makes the message mean nothing.
pub open spec fn parse_spec(
    prefix: Seq<char>,
    members: Map<Seq<char>, Seq<char>>,
    commands: Map<Seq<char>, Command>,
    message: Seq<char>,
) -> Option<ParsedView> {
    if !prefix.is_prefix_of(message) {
        None
    } else {
        let tokens = tokens_of(prefix.len(), message);
        let author = author_of(members, tokens);
        let rest = if author is Some {
            tokens.skip(1)
        } else {
            tokens
        };
        if rest.len() == 0 || rest[0].len() == 0 {
            Some(ParsedView { command: Command::Random, author, args: None })
        } else if commands.contains_key(lower(rest[0])) && commands[lower(rest[0])]
            != Command::IgnoreMsg {
            Some(
                ParsedView {
                    command: commands[lower(rest[0])],
                    author,
                    args: Some(join(rest.skip(1), ' ')),
                },
            )
        } else {
            None
        }
    }
}

/// The interpreter's configuration: the prefix that marks a message as
/// meant for the bot, the member directory and the command registry.
/// Aliases and keywords are kept in ASCII lower case, so that looking one up
/// ignores ASCII case.
pub struct Bot {
    prefix: Vec<char>,
    members: Table<String>,
    commands: Table<Command>,
}

impl Bot {
    /// The prefix that a message must begin with.
    pub closed spec fn prefix(&self) -> Seq<char> {
        self.prefix@
    }

    /// The member directory: lower-case alias to display name.
    pub closed spec fn members(&self) -> Map<Seq<char>, Seq<char>> {
        Map::new(
            |k: Seq<char>| self.members.map().contains_key(k),
            |k: Seq<char>| self.members.map()[k]@,
        )
    }

    /// The command registry: lower-case keyword to command.
    pub closed spec fn commands(&self) -> Map<Seq<char>, Command> {
        self.commands.map()
    }

    /// What `message` means to this bot.
    pub open spec fn parse(&self, message: Seq<char>) -> Option<ParsedView> {
        parse_spec(self.prefix(), self.members(), self.commands(), message)
    }

    /// A bot that answers to `!quotes`, with no members and no commands.
    pub fn new() -> (bot: Self)
        ensures
            bot.prefix() == "!quotes"@,
            bot.members() == Map::<Seq<char>, Seq<char>>::empty(),
            bot.commands() == Map::<Seq<char>, Command>::empty(),
    {
        Bot::with_prefix("!quotes")
    }

    /// A bot that answers to `prefix`, with no members and no commands.
    pub fn with_prefix(prefix: &str) -> (bot: Self)
        ensures
            bot.prefix() == prefix@,
            bot.members() == Map::<Seq<char>, Seq<char>>::empty(),
            bot.commands() == Map::<Seq<char>, Command>::empty(),
    {
        let bot = Bot { prefix: to_chars(prefix), members: Table::new(), commands: Table::new() };
        assert(bot.members() =~= Map::<Seq<char>, Seq<char>>::empty());
        bot
    }

    /// Registers a member: from now on the alias `name`, in any ASCII case,
    /// names `display_name`.
    pub fn insert_member(&mut self, name: &str, display_name: &str)
        ensures
            final(self).prefix() == old(self).prefix(),
            final(self).commands() == old(self).commands(),
            final(self).members() == old(self).members().insert(lower(name@), display_name@),
    {
        let chars = to_chars(name);
        let key = lowered(&chars, 0, chars.len());
        assert(chars@.subrange(0, chars.len() as int) =~= name@);
        self.members.insert(key, display_name.to_owned());
        assert(self.members() =~= old(self).members().insert(lower(name@), display_name@));
    }

    /// Registers a command keyword: from now on `name`, in any ASCII case,
    /// asks for `value`.
    pub fn insert_command(&mut self, name: &str, value: Command)
        ensures
            final(self).prefix() == old(self).prefix(),
            final(self).members() == old(self).members(),
            final(self).commands() == old(self).commands().insert(lower(name@), value),
    {
        let chars = to_chars(name);
        let key = lowered(&chars, 0, chars.len());
        assert(chars@.subrange(0, chars.len() as int) =~= name@);
        self.commands.insert(key, value);
    }

    /// Registers every member of a roster, in order.
    pub fn insert_roster(&mut self, config: &Config)
        ensures
            final(self).prefix() == old(self).prefix(),
            final(self).commands() == old(self).commands(),
            final(self).members() == with_roster(old(self).members(), config.members@),
    {
        let mut i: usize = 0;
        assert(config.members@.take(0) =~= Seq::<crate::config::Member>::empty());
        while i < config.members.len()
            invariant
                i <= config.members.len(),
                self.prefix() == old(self).prefix(),
                self.commands() == old(self).commands(),
                self.members() == with_roster(old(self).members(), config.members@.take(i as int)),
            decreases config.members.len() - i,
        {
            let member = &config.members[i];
            assert(config.members@.take(i + 1).drop_last() =~= config.members@.take(i as int));
            self.insert_member(member.name.as_str(), member.display_name.as_str());
            i += 1;
        }
        assert(config.members@.take(i as int) =~= config.members@);
    }

    /// The member that the first word of `args` names: the display name of
    /// the member whose alias that word is, ASCII case ignored.
    pub fn find_author(&self, args: &str) -> (author: Option<String>)
        ensures
            text_of(author) == author_of(self.members(), split(args@, ' ')),
    {
        let chars = to_chars(args);
        assert(chars@.subrange(0, chars.len() as int) =~= args@);
        let bounds = split_bounds(&chars, 0, chars.len(), ' ');
        let (from, to) = bounds[0];
        assert(split(args@, ' ')[0] == chars@.subrange(from as int, to as int));
        match self.members.get(&chars, from, to) {
            Some(name) => Some(name.clone()),
            None => None,
        }
    }

    /// Stores a quote of `author`, dated today, and says under which
    /// identifier.
    pub fn add_quote(author: &str, quote: &str, database: &mut Store, today: CalendarDate) -> (reply:
        String)
        ensures
            final(database)@ == records_after(
                old(database)@,
                ParsedView { command: Command::Add, author: Some(author@), args: Some(quote@) },
                true,
                today,
            ),
            well_formed(old(database)@) ==> well_formed(final(database)@),
            Some(plain(reply@)) == planned_reply(
                Kind::Quotes,
                old(database)@,
                ParsedView { command: Command::Add, author: Some(author@), args: Some(quote@) },
                true,
            ),
    {
        let named = Some(author.to_owned());
        crate::commands::add(Kind::Quotes, database, &named, quote, true, today).text
    }

    /// The number of quotes of `author`, or of all quotes.
    pub fn num_of_quotes(author: &Option<String>, database: &Store) -> (n: usize)
        ensures
            n == scoped(database@, text_of(*author)).len(),
    {
        database.count(author)
    }

    /// Says how many quotes `author` has, or how many there are in all.
    pub fn length(author: &Option<String>, database: &Store) -> (reply: String)
        ensures
            reply@ == length_text(
                Kind::Quotes,
                text_of(*author),
                scoped(database@, text_of(*author)).len(),
            ),
    {
        amount(Kind::Quotes, database, author).text
    }

    /// Shows one quote of `author`, or of all quotes, drawn at random;
    /// where there is none, says so.
    pub fn random(author: &Option<String>, database: &Store) -> (reply: String)
        ensures
            answers_random(Kind::Quotes, database@, text_of(*author), Some(plain(reply@))),
    {
        let reply = random(Kind::Quotes, database, author);
        proof {
            lemma_quote_replies_are_plain(database@, text_of(*author), reply@);
        }
        reply.text
    }

    /// Reads a chat message: `None` if it is not meant for the bot or asks
    /// for nothing the bot knows, otherwise the command, the author it names
    /// and the arguments.
    pub fn parse_message(&self, message: &str) -> (parsed: Option<ParsedMessage>)
        ensures
            parsed_view(parsed) == self.parse(message@),
            !self.prefix().is_prefix_of(message@) ==> parsed is None,
            parsed matches Some(p) ==> p.command != Command::IgnoreMsg,
    {
        let chars = to_chars(message);
        if !starts_with(&chars, &self.prefix) {
            return None;
        }
        let (a, b) = trim_bounds(&chars, self.prefix.len());
        let bounds = split_bounds(&chars, a, b, ' ');
        let ghost tokens = tokens_of(self.prefix().len(), message@);
        assert(tokens == slices(message@, bounds@));
        let (first_from, first_to) = bounds[0];
        assert(tokens[0] == chars@.subrange(first_from as int, first_to as int));
        let mut author: Option<String> = None;
        let mut next: usize = 0;
        match self.members.get(&chars, first_from, first_to) {
            Some(name) => {
                author = Some(name.clone());
                next = 1;
            },
            None => {},
        }
        assert(text_of(author) == author_of(self.members(), tokens));
        let ghost rest = tokens.skip(next as int);
        if next >= bounds.len() {
            return Some(ParsedMessage { command: Command::Random, author, args: None });
        }
        let (word_from, word_to) = bounds[next];
        assert(rest[0] == chars@.subrange(word_from as int, word_to as int));
        if word_from == word_to {
            return Some(ParsedMessage { command: Command::Random, author, args: None });
        }
        match self.commands.get(&chars, word_from, word_to) {
            Some(command) => {
                if *command == Command::IgnoreMsg {
                    return None;
                }
                let args = join_slices(message, &bounds, next + 1);
                assert(tokens.skip(next + 1) =~= rest.skip(1));
                Some(ParsedMessage { command: *command, author, args: Some(args) })
            },
            None => None,
        }
    }
}

/// The directory that registering the members of `roster`, in order, makes
/// of `members`.
pub open spec fn with_roster(
    members: Map<Seq<char>, Seq<char>>,
    roster: Seq<crate::config::Member>,
) -> Map<Seq<char>, Seq<char>>
    decreases roster.len(),
{
    if roster.len() == 0 {
        members
    } else {
        with_roster(members, roster.drop_last()).insert(
            lower(roster.last().name@),
            roster.last().display_name@,
        )
    }
}

/// Whether `word` can stand as one token of a message: it is not empty,
/// holds no space, and neither begins nor ends with whitespace.
pub open spec fn is_token(word: Seq<char>) -> bool {
    &&& word.len() > 0
    &&& !word.contains(' ')
    &&& !is_whitespace(word[0])
    &&& !is_whitespace(word.last())
}

/// Tokens are never empty at either end of the list, except for the single
/// empty token of a message with nothing but whitespace after the prefix.
pub proof fn lemma_tokens_have_no_empty_ends(prefix_len: nat, message: Seq<char>)
    ensures
        tokens_of(prefix_len, message).len() >= 1,
        trim(message.skip(prefix_len as int)).len() == 0 ==> tokens_of(prefix_len, message)
            == seq![Seq::<char>::empty()],
        trim(message.skip(prefix_len as int)).len() > 0 ==> tokens_of(
            prefix_len,
            message,
        ).first().len() > 0 && tokens_of(prefix_len, message).last().len() > 0,
{
    let body = trim(message.skip(prefix_len as int));
    lemma_trim_is_trimmed(message.skip(prefix_len as int));
    lemma_split_ends(body, ' ');
    if body.len() == 0 {
        assert(body =~= Seq::<char>::empty());
    }
}

/// A message that does not begin with the prefix means nothing.
pub proof fn lemma_parse_needs_prefix(bot: Bot, message: Seq<char>)
    requires
        !bot.prefix().is_prefix_of(message),
    ensures
        bot.parse(message) is None,
{
}

/// The prefix alone asks for `Random`, with no author and no arguments,
/// unless the empty alias is registered.
pub proof fn lemma_parse_bare_prefix(bot: Bot)
    requires
        !bot.members().contains_key(Seq::<char>::empty()),
    ensures
        bot.parse(bot.prefix()) == Some(
            ParsedView { command: Command::Random, author: None, args: None },
        ),
{
    let prefix = bot.prefix();
    let tail = prefix.skip(prefix.len() as int);
    assert(tail =~= Seq::<char>::empty());
    assert(prefix =~= prefix.subrange(0, prefix.len() as int));
    assert(trim(tail) =~= Seq::<char>::empty());
    let tokens = tokens_of(prefix.len(), prefix);
    assert(tokens =~= seq![Seq::<char>::empty()]);
    assert(lower(tokens[0]) =~= Seq::<char>::empty());
}

/// The tokens of the prefix, a space and a body that neither begins nor
/// ends with whitespace are the pieces of the body.
pub proof fn lemma_tokens_after_prefix(prefix: Seq<char>, body: Seq<char>)
    requires
        body.len() > 0,
        !is_whitespace(body[0]),
        !is_whitespace(body.last()),
    ensures
        prefix.is_prefix_of(prefix + seq![' '] + body),
        tokens_of(prefix.len(), prefix + seq![' '] + body) == split(body, ' '),
{
    let message = prefix + seq![' '] + body;
    assert(message.subrange(0, prefix.len() as int) =~= prefix);
    assert(message.skip(prefix.len() as int) =~= seq![' '] + body);
    lemma_trim_after_space(body);
}

/// The prefix, a space and a member's alias ask for `Random` with that
/// member as the author and no arguments. The alias is a token, or empty.
pub proof fn lemma_parse_alias(bot: Bot, alias: Seq<char>)
    requires
        is_token(alias) || alias.len() == 0,
        bot.members().contains_key(lower(alias)),
    ensures
        bot.parse(bot.prefix() + seq![' '] + alias) == Some(
            ParsedView {
                command: Command::Random,
                author: Some(bot.members()[lower(alias)]),
                args: None,
            },
        ),
{
    let prefix = bot.prefix();
    let message = prefix + seq![' '] + alias;
    if alias.len() == 0 {
        assert(message.subrange(0, prefix.len() as int) =~= prefix);
        assert(message.skip(prefix.len() as int) =~= seq![' ']);
        lemma_trim_space();
        assert(alias =~= Seq::<char>::empty());
        assert(tokens_of(prefix.len(), message) =~= seq![alias]);
    } else {
        lemma_tokens_after_prefix(prefix, alias);
        lemma_split_without_separator(alias, ' ');
    }
}

/// The prefix, a space, a member's alias, a space, a command keyword, a
/// space and a text ask for that command with that member as the author
/// and the text as the arguments. The text may hold spaces and may be
/// empty; it does not end with whitespace.
pub proof fn lemma_parse_alias_keyword_text(
    bot: Bot,
    alias: Seq<char>,
    keyword: Seq<char>,
    text: Seq<char>,
)
    requires
        is_token(alias),
        is_token(keyword),
        text.len() > 0 ==> !is_whitespace(text.last()),
        bot.members().contains_key(lower(alias)),
        bot.commands().contains_key(lower(keyword)),
        bot.commands()[lower(keyword)] != Command::IgnoreMsg,
    ensures
        bot.parse(bot.prefix() + seq![' '] + (alias + seq![' '] + keyword + seq![' '] + text))
            == Some(
            ParsedView {
                command: bot.commands()[lower(keyword)],
                author: Some(bot.members()[lower(alias)]),
                args: Some(text),
            },
        ),
{
    let prefix = bot.prefix();
    let body = alias + seq![' '] + keyword + seq![' '] + text;
    let message = prefix + seq![' '] + body;
    lemma_split_without_separator(alias, ' ');
    lemma_split_without_separator(keyword, ' ');
    if text.len() == 0 {
        let words = alias + seq![' '] + keyword;
        assert(words[0] == alias[0]);
        assert(words.last() == keyword.last());
        assert(message.subrange(0, prefix.len() as int) =~= prefix);
        assert(message.skip(prefix.len() as int) =~= seq![' '] + words + seq![' ']);
        lemma_trim_between_spaces(words);
        lemma_split_at_separator(alias, keyword, ' ');
        let tokens = tokens_of(prefix.len(), message);
        assert(tokens =~= seq![alias] + seq![keyword]);
        assert(tokens[0] == alias);
        let rest = tokens.skip(1);
        assert(rest =~= seq![keyword]);
        assert(rest[0] == keyword);
        assert(rest.skip(1) =~= Seq::<Seq<char>>::empty());
        assert(join(rest.skip(1), ' ') =~= text);
    } else {
        assert(body[0] == alias[0]);
        assert(body.last() == text.last());
        lemma_tokens_after_prefix(prefix, body);
        let tokens = split(body, ' ');
        assert(body =~= alias + seq![' '] + (keyword + seq![' '] + text));
        lemma_split_at_separator(alias, keyword + seq![' '] + text, ' ');
        lemma_split_at_separator(keyword, text, ' ');
        assert(tokens =~= seq![alias] + (seq![keyword] + split(text, ' ')));
        assert(tokens[0] == alias);
        let rest = tokens.skip(1);
        assert(rest =~= seq![keyword] + split(text, ' '));
        assert(rest[0] == keyword);
        assert(rest.skip(1) =~= split(text, ' '));
        lemma_join_split(text, ' ');
    }
}

/// The prefix followed by a token that is neither a member's alias nor a
/// command keyword means nothing.
pub proof fn lemma_parse_unknown_token(bot: Bot, token: Seq<char>)
    requires
        is_token(token),
        !bot.members().contains_key(lower(token)),
        !bot.commands().contains_key(lower(token)),
    ensures
        bot.parse(bot.prefix() + seq![' '] + token) is None,
{
    lemma_tokens_after_prefix(bot.prefix(), token);
    lemma_split_without_separator(token, ' ');
}

} // verus!
