//! Asking the language servers of a project one after the other, until one has the symbol.

use crate::commands::read::result_view;
use crate::daemon::server::{
    edit_missing, language_outcome, missing_answer, no_language, no_language_answer, not_found_answer, outcome_response,
    read_symbol_missing, still_indexing, symbol_not_found,
};
use crate::detect::language::Language;
use crate::json::{Json, JsonValue};
use crate::lsp::pool::Readiness;
use crate::protocol::{failure, success, Answer, Response};
use crate::text::{contains, decimal};
use vstd::prelude::*;

verus! {

/// What is asked of the servers.
#[derive(Debug, Clone, Copy, PartialEq, Eq, Structural)]
pub enum Goal {
    ReadSymbol,
    Edit,
    Hover,
    Rename,
    Fix,
}

/// What came of asking one server.
pub enum Reply {
    /// The server is not there, or knows no such symbol.
    Nothing,
    /// What the command gave, or why it failed.
    Outcome(Result<JsonValue, String>),
}

/// The mathematical value of a [`Reply`].
pub enum ReplyView {
    Nothing,
    Outcome(Result<Json, Seq<char>>),
}

impl View for Reply {
    type V = ReplyView;

    open spec fn view(&self) -> ReplyView {
        match *self {
            Reply::Nothing => ReplyView::Nothing,
            Reply::Outcome(o) => ReplyView::Outcome(result_view(o)),
        }
    }
}

impl Goal {
    /// The code under which a failure is answered.
    pub open spec fn code(self) -> Seq<char> {
        match self {
            Goal::ReadSymbol => "read_symbol_failed"@,
            Goal::Edit => "edit_failed"@,
            Goal::Hover => "hover_failed"@,
            Goal::Rename => "rename_failed"@,
            Goal::Fix => "fix_failed"@,
        }
    }

    /// The answer that a server's reply settles, where it settles any. A symbol that is not found by
    /// one server may be found by the next; but a read or a fix is not tried again.
    pub open spec fn settled(self, reply: ReplyView) -> Option<Answer> {
        match reply {
            ReplyView::Nothing => None,
            ReplyView::Outcome(Ok(data)) => Some(success(data)),
            ReplyView::Outcome(Err(m)) => if contains(m, "not found"@) && self != Goal::ReadSymbol && self != Goal::Fix {
                None
            } else {
                Some(failure(self.code(), m, None))
            },
        }
    }

    /// The answer where no server's reply settled it.
    pub open spec fn unsettled(self, name: Seq<char>, readiness: Readiness, uptime: u64) -> Answer {
        match self {
            Goal::ReadSymbol => missing_answer(name, readiness, uptime),
            Goal::Edit => if still_indexing(readiness, uptime) {
                failure(
                    "indexing"@,
                    "LSP servers still indexing ("@ + decimal(readiness.ready as nat) + "/"@ + decimal(
                        readiness.total as nat,
                    ) + " ready)"@,
                    Some("Wait a few seconds and try again"@),
                )
            } else {
                not_found_answer(name)
            },
            Goal::Hover | Goal::Rename => not_found_answer(name),
            Goal::Fix => failure("lsp_not_available"@, "No LSP server available for fix"@, None),
        }
    }

    /// The answer, given what comes of asking each server from the `i`th on.
    pub open spec fn answer(
        self,
        replies: Seq<ReplyView>,
        i: int,
        name: Seq<char>,
        readiness: Readiness,
        uptime: u64,
    ) -> Answer
        decreases replies.len() - i,
    {
        if i >= replies.len() {
            self.unsettled(name, readiness, uptime)
        } else {
            match self.settled(replies[i]) {
                Some(a) => a,
                None => self.answer(replies, i + 1, name, readiness, uptime),
            }
        }
    }

    fn code_text(self) -> (r: &'static str)
        ensures
            r@ == self.code(),
    {
        match self {
            Goal::ReadSymbol => "read_symbol_failed",
            Goal::Edit => "edit_failed",
            Goal::Hover => "hover_failed",
            Goal::Rename => "rename_failed",
            Goal::Fix => "fix_failed",
        }
    }

    /// The answer that a server's reply settles, where it settles any.
    pub fn judge(self, reply: Reply) -> (r: Option<Response>)
        ensures
            match r {
                Some(a) => self.settled(reply@) == Some(a@),
                None => self.settled(reply@) is None,
            },
    {
        match reply {
            Reply::Nothing => None,
            Reply::Outcome(o) => match self {
                Goal::ReadSymbol | Goal::Fix => Some(outcome_response(self.code_text(), o)),
                _ => language_outcome(self.code_text(), o),
            },
        }
    }

    /// The answer where no server's reply settled it.
    pub fn give_up(self, name: &str, readiness: &Readiness, uptime: u64) -> (r: Response)
        ensures
            r@ == self.unsettled(name@, *readiness, uptime),
    {
        match self {
            Goal::ReadSymbol => read_symbol_missing(name, readiness, uptime),
            Goal::Edit => edit_missing(name, readiness, uptime),
            Goal::Hover | Goal::Rename => symbol_not_found(name),
            Goal::Fix => Response::err("lsp_not_available", "No LSP server available for fix"),
        }
    }
}

/// Which server to ask next.
pub enum QuestStep {
    Ask(Language),
    /// No server is left: the answer is that of [`Quest::finish`].
    Exhausted,
}

/// A request that is put to the servers of the languages in turn.
pub struct Quest {
    pub goal: Goal,
    pub name: String,
    pub languages: Vec<Language>,
    pub at: usize,
}

impl Quest {
    /// The answer, given what comes of asking each server.
    pub open spec fn answer(self, replies: Seq<ReplyView>, readiness: Readiness, uptime: u64) -> Answer {
        self.goal.answer(replies, self.at as int, self.name@, readiness, uptime)
    }

    /// Starts to ask. A project without languages has nobody to ask.
    pub fn new(goal: Goal, name: &str, languages: Vec<Language>) -> (r: Result<Quest, Response>)
        ensures
            match r {
                Ok(q) => {
                    &&& languages@.len() > 0
                    &&& q.goal == goal
                    &&& q.name@ == name@
                    &&& q.languages == languages
                    &&& q.at == 0
                },
                Err(a) => languages@.len() == 0 && a@ == no_language_answer(),
            },
    {
        if languages.len() == 0 {
            return Err(no_language());
        }
        Ok(Quest { goal, name: name.to_string(), languages, at: 0 })
    }

    /// The server to ask next.
    pub fn next_step(&self) -> (r: QuestStep)
        ensures
            if self.at < self.languages@.len() {
                r == QuestStep::Ask(self.languages@[self.at as int])
            } else {
                r is Exhausted
            },
    {
        if self.at < self.languages.len() {
            QuestStep::Ask(self.languages[self.at])
        } else {
            QuestStep::Exhausted
        }
    }

    /// Takes notice of a server's reply, and answers where that settles it.
    pub fn on_reply(&mut self, reply: Reply) -> (r: Option<Response>)
        requires
            old(self).at < old(self).languages.len(),
        ensures
            final(self).goal == old(self).goal,
            final(self).name == old(self).name,
            final(self).languages == old(self).languages,
            final(self).at == old(self).at + 1,
            forall|replies: Seq<ReplyView>, readiness: Readiness, uptime: u64|
                #![trigger old(self).answer(replies, readiness, uptime)]
                replies.len() == old(self).languages@.len() && replies[old(self).at as int] == reply@ ==> match r {
                    Some(a) => a@ == old(self).answer(replies, readiness, uptime),
                    None => final(self).answer(replies, readiness, uptime) == old(self).answer(
                        replies,
                        readiness,
                        uptime,
                    ),
                },
    {
        self.at = self.at + 1;
        self.goal.judge(reply)
    }

    /// The answer after the last server was asked.
    pub fn finish(&self, readiness: &Readiness, uptime: u64) -> (r: Response)
        requires
            self.at >= self.languages@.len(),
        ensures
            forall|replies: Seq<ReplyView>|
                replies.len() == self.languages@.len() ==> r@ == #[trigger] self.answer(replies, *readiness, uptime),
    {
        self.goal.give_up(self.name.as_str(), readiness, uptime)
    }
}

/// The first reply that settles the request is the answer, whatever the servers after it would say.
pub proof fn first_settling_reply_wins(
    goal: Goal,
    replies: Seq<ReplyView>,
    i: int,
    k: int,
    name: Seq<char>,
    readiness: Readiness,
    uptime: u64,
)
    requires
        0 <= i <= k < replies.len(),
        forall|j: int| i <= j < k ==> goal.settled(#[trigger] replies[j]) is None,
        goal.settled(replies[k]) is Some,
    ensures
        Some(goal.answer(replies, i, name, readiness, uptime)) == goal.settled(replies[k]),
    decreases k - i,
{
    if i < k {
        assert(goal.settled(replies[i]) is None);
        first_settling_reply_wins(goal, replies, i + 1, k, name, readiness, uptime);
    }
}

/// Where no reply settles the request, the answer tells that the symbol is missing.
pub proof fn no_settling_reply(
    goal: Goal,
    replies: Seq<ReplyView>,
    i: int,
    name: Seq<char>,
    readiness: Readiness,
    uptime: u64,
)
    requires
        0 <= i <= replies.len(),
        forall|j: int| i <= j < replies.len() ==> goal.settled(#[trigger] replies[j]) is None,
    ensures
        goal.answer(replies, i, name, readiness, uptime) == goal.unsettled(name, readiness, uptime),
    decreases replies.len() - i,
{
    if i < replies.len() {
        assert(goal.settled(replies[i]) is None);
        no_settling_reply(goal, replies, i + 1, name, readiness, uptime);
    }
}

} // verus!
