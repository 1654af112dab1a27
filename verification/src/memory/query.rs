//! The query that memories are searched with.
use vstd::prelude::*;

use crate::model::runner::clone_texts;
use crate::text;
use crate::text::{join, IntoText};

verus! {

/// What memories are searched for.
#[derive(Debug, PartialEq, Eq)]
pub struct ActivationQuery {
    pub user_message: String,
    pub recent_context: Vec<String>,
    pub plan: Option<String>,
    pub tool_hints: Vec<String>,
}

/// A query as a mathematical value.
#[verifier::ext_equal]
pub struct Query {
    pub user_message: Seq<char>,
    pub recent_context: Seq<Seq<char>>,
    pub plan: Option<Seq<char>>,
    pub tool_hints: Seq<Seq<char>>,
}

impl View for ActivationQuery {
    type V = Query;

    open spec fn view(&self) -> Query {
        Query {
            user_message: self.user_message@,
            recent_context: text::texts(self.recent_context@),
            plan: text::opt_text(self.plan),
            tool_hints: text::texts(self.tool_hints@),
        }
    }
}

impl Clone for ActivationQuery {
    fn clone(&self) -> (result: Self)
        ensures
            result@ == self@,
    {
        ActivationQuery {
            user_message: self.user_message.clone(),
            recent_context: clone_texts(self.recent_context.as_slice()),
            plan: self.plan.clone(),
            tool_hints: clone_texts(self.tool_hints.as_slice()),
        }
    }
}

impl Query {
    /// The lines of the text that is embedded.
    pub open spec fn sections(self) -> Seq<Seq<char>> {
        let user = seq!["user: "@ + self.user_message];
        let planned = match self.plan {
            Some(plan) => user.push("plan: "@ + plan),
            None => user,
        };
        let recent = if self.recent_context.len() == 0 {
            planned
        } else {
            planned.push("recent: "@ + text::joined(self.recent_context, " | "@))
        };
        if self.tool_hints.len() == 0 {
            recent
        } else {
            recent.push("tools: "@ + text::joined(self.tool_hints, " | "@))
        }
    }
}

impl ActivationQuery {
    /// A query for a message in its context.
    pub fn new<M: IntoText>(
        user_message: M,
        recent_context: Vec<String>,
        plan: Option<String>,
        tool_hints: Vec<String>,
    ) -> (query: Self)
        ensures
            query@ == (Query {
                user_message: user_message.chars(),
                recent_context: text::texts(recent_context@),
                plan: text::opt_text(plan),
                tool_hints: text::texts(tool_hints@),
            }),
    {
        ActivationQuery { user_message: user_message.into_text(), recent_context, plan, tool_hints }
    }

    /// The text that is embedded: one line for each part that is there.
    pub fn as_embedding_input(&self) -> (result: String)
        ensures
            result@ == text::joined(self@.sections(), "\n"@),
    {
        let mut sections: Vec<String> = Vec::new();
        sections.push("user: ".to_string().concat(self.user_message.as_str()));
        if let Some(plan) = &self.plan {
            sections.push("plan: ".to_string().concat(plan.as_str()));
        }
        if self.recent_context.len() > 0 {
            sections.push(
                "recent: ".to_string().concat(
                    join(self.recent_context.as_slice(), " | ").as_str(),
                ),
            );
        }
        if self.tool_hints.len() > 0 {
            sections.push(
                "tools: ".to_string().concat(join(self.tool_hints.as_slice(), " | ").as_str()),
            );
        }
        assert(text::texts(sections@) =~= self@.sections());
        join(sections.as_slice(), "\n")
    }
}

/// A query says everything that is known: the message of the user and, each
/// where there is one, the plan, the recent context and the tool hints, in this
/// order.
pub proof fn queries_say_everything(query: Query)
    ensures
        ({
            let titled = seq![
                ("user: "@, seq![query.user_message]),
                (
                    "plan: "@,
                    match query.plan {
                        Some(plan) => seq![plan],
                        None => Seq::empty(),
                    },
                ),
                ("recent: "@, query.recent_context),
                ("tools: "@, query.tool_hints),
            ];
            query.sections() == titled.filter(
                |part: (Seq<char>, Seq<Seq<char>>)| part.1.len() > 0,
            ).map_values(
                |part: (Seq<char>, Seq<Seq<char>>)| part.0 + text::joined(part.1, " | "@),
            )
        }),
{
    reveal_with_fuel(Seq::filter, 5);
    let titled = seq![
        ("user: "@, seq![query.user_message]),
        (
            "plan: "@,
            match query.plan {
                Some(plan) => seq![plan],
                None => Seq::empty(),
            },
        ),
        ("recent: "@, query.recent_context),
        ("tools: "@, query.tool_hints),
    ];
    let kind = |part: (Seq<char>, Seq<Seq<char>>)| part.1.len() > 0;
    let write = |part: (Seq<char>, Seq<Seq<char>>)| part.0 + text::joined(part.1, " | "@);
    let a = titled.take(1);
    let b = titled.take(2);
    let c = titled.take(3);
    assert(titled.drop_last() =~= c);
    assert(c.drop_last() =~= b);
    assert(b.drop_last() =~= a);
    assert(a.drop_last() =~= Seq::empty());
    let user = seq!["user: "@ + query.user_message];
    assert(a.filter(kind).map_values(write) =~= user);
    let planned = match query.plan {
        Some(plan) => user.push("plan: "@ + plan),
        None => user,
    };
    assert(b.filter(kind).map_values(write) =~= planned);
    let recent = if query.recent_context.len() == 0 {
        planned
    } else {
        planned.push("recent: "@ + text::joined(query.recent_context, " | "@))
    };
    assert(c.filter(kind).map_values(write) =~= recent);
    assert(titled.filter(kind).map_values(write) =~= query.sections());
}

} // verus!
