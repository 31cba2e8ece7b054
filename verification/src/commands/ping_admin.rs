//! The command `!p`, which manages pings and their members.
use vstd::prelude::*;
use crate::commands;
use crate::commands::{is_admin, CommandContext, ADMIN_DENIED_MSG};
use crate::ping;
use crate::ping::PingManager;
use crate::text;

verus! {

pub const USAGE: &'static str =
    "Nutze: join, leave, list (oder create, delete, edit, add, remove als Mod)";

/// What a command does: the pings after it, the answer, and whether the pings are to be
/// saved.
pub ghost struct Done {
    pub board: ping::Board,
    pub reply: Seq<char>,
    pub save: bool,
}

/// What is answered to an operation on the pings: a text where it succeeds, and its error
/// where it fails.
pub open spec fn told(
    before: ping::Board,
    result: Result<ping::Board, Seq<char>>,
    success: Seq<char>,
) -> Done {
    match result {
        Ok(board) => Done { board, reply: success, save: true },
        Err(e) => refused(before, e + " FDM"@),
    }
}

pub open spec fn refused(before: ping::Board, reply: Seq<char>) -> Done {
    Done { board: before, reply, save: false }
}

pub open spec fn quoted_ping(name: Seq<char>, after: Seq<char>) -> Seq<char> {
    "Ping \""@ + name + after
}

pub open spec fn create_done(b: ping::Board, ctx: CommandContext) -> Done {
    if ctx.words().len() < 3 {
        refused(b, "Nutze: !p create <name> <template>"@)
    } else {
        let name = text::unicode_lower(ctx.words()[1]);
        told(
            b,
            b.created(name, text::join(ctx.words().skip(2), " "@), ctx.sender_login@, None),
            quoted_ping(name, "\" erstellt Okayge"@),
        )
    }
}

pub open spec fn delete_done(b: ping::Board, ctx: CommandContext) -> Done {
    if ctx.words().len() < 2 {
        refused(b, "Nutze: !p delete <name>"@)
    } else {
        let name = text::unicode_lower(ctx.words()[1]);
        told(b, b.deleted(name), quoted_ping(name, "\" gelöscht Okayge"@))
    }
}

pub open spec fn edit_done(b: ping::Board, ctx: CommandContext) -> Done {
    if ctx.words().len() < 3 {
        refused(b, "Nutze: !p edit <name> <template>"@)
    } else {
        let name = text::unicode_lower(ctx.words()[1]);
        told(
            b,
            b.edited(name, text::join(ctx.words().skip(2), " "@)),
            quoted_ping(name, "\" updated SeemsGood"@),
        )
    }
}

pub open spec fn member_done(b: ping::Board, ctx: CommandContext, add: bool) -> Done {
    if ctx.words().len() < 3 {
        refused(
            b,
            if add {
                "Nutze: !p add <name> <user>"@
            } else {
                "Nutze: !p remove <name> <user>"@
            },
        )
    } else {
        let name = text::unicode_lower(ctx.words()[1]);
        let user = text::unicode_lower(text::strip_leading(ctx.words()[2], '@'));
        if add {
            told(
                b,
                b.member_added(name, user),
                user + " zu \""@ + name + "\" hinzugefügt Okayge"@,
            )
        } else {
            told(
                b,
                b.member_removed(name, user),
                user + " aus \""@ + name + "\" entfernt Okayge"@,
            )
        }
    }
}

pub open spec fn self_done(b: ping::Board, ctx: CommandContext, join: bool) -> Done {
    if ctx.words().len() < 2 {
        refused(
            b,
            if join {
                "Nutze: !p join <name>"@
            } else {
                "Nutze: !p leave <name>"@
            },
        )
    } else {
        let name = text::unicode_lower(ctx.words()[1]);
        let result = if join {
            b.member_added(name, ctx.sender_login@)
        } else {
            b.member_removed(name, ctx.sender_login@)
        };
        match result {
            Ok(board) => Done { board, reply: "Hab ich gemacht Okayge"@, save: true },
            Err(e) => refused(
                b,
                if text::has(e, "gibt es nicht"@) {
                    e + " FDM"@
                } else if join {
                    "Bist du schon FDM"@
                } else {
                    "Bist du nicht drin FDM"@
                },
            ),
        }
    }
}

pub open spec fn list_reply(b: ping::Board, ctx: CommandContext) -> Seq<char> {
    let names = ping::subscribed(b.names, b.pings, ctx.sender_login@);
    if names.len() == 0 {
        "Keine Pings"@
    } else {
        text::join(names, " "@)
    }
}

pub open spec fn subcommand(ctx: CommandContext) -> Seq<char> {
    if ctx.words().len() == 0 {
        Seq::empty()
    } else {
        ctx.words()[0]
    }
}

/// Whether a subcommand is for admins only.
pub open spec fn for_admins(sub: Seq<char>) -> bool {
    sub == "create"@ || sub == "delete"@ || sub == "edit"@ || sub == "add"@ || sub == "remove"@
}

/// What `!p` does and answers.
pub open spec fn done(b: ping::Board, ctx: CommandContext, hidden: Seq<Seq<char>>) -> Done {
    let sub = subcommand(ctx);
    if for_admins(sub) && !commands::admin(ctx.badges@, ctx.sender_id@, hidden) {
        refused(b, ADMIN_DENIED_MSG@)
    } else if sub == "create"@ {
        create_done(b, ctx)
    } else if sub == "delete"@ {
        delete_done(b, ctx)
    } else if sub == "edit"@ {
        edit_done(b, ctx)
    } else if sub == "add"@ {
        member_done(b, ctx, true)
    } else if sub == "remove"@ {
        member_done(b, ctx, false)
    } else if sub == "join"@ {
        self_done(b, ctx, true)
    } else if sub == "leave"@ {
        self_done(b, ctx, false)
    } else if sub == "list"@ {
        refused(b, list_reply(b, ctx))
    } else {
        refused(b, USAGE@)
    }
}

/// The answer of `!p`, and whether the pings have changed and are to be saved.
#[derive(Debug, Clone)]
pub struct AdminReply {
    pub reply: String,
    pub changed: bool,
}

/// Whether an answer and the pings after it are what they should be.
pub open spec fn answers(d: Done, r: AdminReply, after: ping::Board) -> bool {
    &&& r.reply@ == d.reply
    &&& after == d.board
    &&& r.changed == d.save
}

fn fail(e: String) -> (r: AdminReply)
    ensures
        r.reply@ == e@ + " FDM"@,
        !r.changed,
{
    let mut reply = e;
    reply.push_str(" FDM");
    AdminReply { reply, changed: false }
}

fn say(reply: &str) -> (r: AdminReply)
    ensures
        r.reply@ == reply@,
        !r.changed,
{
    AdminReply { reply: reply.to_owned(), changed: false }
}

fn changed(reply: String) -> (r: AdminReply)
    ensures
        r.reply == reply,
        r.changed,
{
    AdminReply { reply, changed: true }
}

fn about_ping(name: &str, after: &str) -> (r: String)
    ensures
        r@ == quoted_ping(name@, after@),
{
    let mut s = "Ping \"".to_owned();
    s.push_str(name);
    s.push_str(after);
    s
}

/// The words from the third on, in one text.
fn tail(args: &Vec<String>) -> (r: String)
    requires
        args@.len() >= 2,
    ensures
        r@ == text::join(text::views(args@).skip(2), " "@),
{
    let mut rest: Vec<String> = Vec::new();
    let mut i: usize = 2;
    while i < args.len()
        invariant
            2 <= i <= args@.len(),
            text::views(rest@) == text::views(args@).subrange(2, i as int),
        decreases args@.len() - i,
    {
        let ghost before = text::views(rest@);
        rest.push(args[i].clone());
        assert(text::views(rest@) =~= before.push(text::views(args@)[i as int]));
        assert(text::views(args@).subrange(2, i + 1) =~= before.push(
            text::views(args@)[i as int],
        ));
        i = i + 1;
    }
    assert(text::views(args@).subrange(2, i as int) =~= text::views(args@).skip(2));
    text::joined(&rest, " ")
}

fn handle_create(manager: &mut PingManager, ctx: &CommandContext) -> (r: AdminReply)
    requires
        old(manager).wf(),
    ensures
        final(manager).wf(),
        answers(create_done(old(manager)@, *ctx), r, final(manager)@),
{
    assert(ctx.words().len() == ctx.args@.len());
    if ctx.args.len() < 3 {
        return say("Nutze: !p create <name> <template>");
    }
    let name = text::to_lowercase(ctx.args[1].as_str());
    let template = tail(&ctx.args);
    match manager.create_ping(name.clone(), template, ctx.sender_login.clone(), None) {
        Ok(()) => changed(about_ping(name.as_str(), "\" erstellt Okayge")),
        Err(e) => fail(e),
    }
}

fn handle_delete(manager: &mut PingManager, ctx: &CommandContext) -> (r: AdminReply)
    requires
        old(manager).wf(),
    ensures
        final(manager).wf(),
        answers(delete_done(old(manager)@, *ctx), r, final(manager)@),
{
    assert(ctx.words().len() == ctx.args@.len());
    if ctx.args.len() < 2 {
        return say("Nutze: !p delete <name>");
    }
    let name = text::to_lowercase(ctx.args[1].as_str());
    match manager.delete_ping(name.as_str()) {
        Ok(()) => changed(about_ping(name.as_str(), "\" gelöscht Okayge")),
        Err(e) => fail(e),
    }
}

fn handle_edit(manager: &mut PingManager, ctx: &CommandContext) -> (r: AdminReply)
    requires
        old(manager).wf(),
    ensures
        final(manager).wf(),
        answers(edit_done(old(manager)@, *ctx), r, final(manager)@),
{
    assert(ctx.words().len() == ctx.args@.len());
    if ctx.args.len() < 3 {
        return say("Nutze: !p edit <name> <template>");
    }
    let name = text::to_lowercase(ctx.args[1].as_str());
    let template = tail(&ctx.args);
    match manager.edit_template(name.as_str(), template) {
        Ok(()) => changed(about_ping(name.as_str(), "\" updated SeemsGood")),
        Err(e) => fail(e),
    }
}

fn handle_member_op(manager: &mut PingManager, ctx: &CommandContext, add: bool) -> (r: AdminReply)
    requires
        old(manager).wf(),
    ensures
        final(manager).wf(),
        answers(member_done(old(manager)@, *ctx, add), r, final(manager)@),
{
    assert(ctx.words().len() == ctx.args@.len());
    if ctx.args.len() < 3 {
        return if add {
            say("Nutze: !p add <name> <user>")
        } else {
            say("Nutze: !p remove <name> <user>")
        };
    }
    let name = text::to_lowercase(ctx.args[1].as_str());
    let bare = text::trim_start_matches(ctx.args[2].as_str(), '@');
    let user = text::to_lowercase(bare.as_str());
    let result = if add {
        manager.add_member(name.as_str(), user.as_str())
    } else {
        manager.remove_member(name.as_str(), user.as_str())
    };
    match result {
        Ok(()) => {
            let mut s = user;
            if add {
                s.push_str(" zu \"");
            } else {
                s.push_str(" aus \"");
            }
            s.push_str(name.as_str());
            if add {
                s.push_str("\" hinzugefügt Okayge");
            } else {
                s.push_str("\" entfernt Okayge");
            }
            changed(s)
        },
        Err(e) => fail(e),
    }
}

fn handle_self_op(manager: &mut PingManager, ctx: &CommandContext, join: bool) -> (r: AdminReply)
    requires
        old(manager).wf(),
    ensures
        final(manager).wf(),
        answers(self_done(old(manager)@, *ctx, join), r, final(manager)@),
{
    assert(ctx.words().len() == ctx.args@.len());
    if ctx.args.len() < 2 {
        return if join {
            say("Nutze: !p join <name>")
        } else {
            say("Nutze: !p leave <name>")
        };
    }
    let name = text::to_lowercase(ctx.args[1].as_str());
    let result = if join {
        manager.add_member(name.as_str(), ctx.sender_login.as_str())
    } else {
        manager.remove_member(name.as_str(), ctx.sender_login.as_str())
    };
    match result {
        Ok(()) => changed("Hab ich gemacht Okayge".to_owned()),
        Err(e) => {
            if text::contains(e.as_str(), "gibt es nicht") {
                fail(e)
            } else if join {
                say("Bist du schon FDM")
            } else {
                say("Bist du nicht drin FDM")
            }
        },
    }
}

fn handle_list(manager: &PingManager, ctx: &CommandContext) -> (r: AdminReply)
    requires
        manager.wf(),
    ensures
        r.reply@ == list_reply(manager@, *ctx),
        !r.changed,
{
    let names = manager.list_pings_for_user(ctx.sender_login.as_str());
    assert(text::views(names@).len() == names@.len());
    if names.len() == 0 {
        return say("Keine Pings");
    }
    AdminReply { reply: text::joined(&names, " "), changed: false }
}

/// Runs `!p`: `create`, `delete`, `edit`, `add` and `remove` for admins; `join`, `leave`
/// and `list` for everyone.
pub fn execute(
    manager: &mut PingManager,
    ctx: &CommandContext,
    hidden_admin_ids: &Vec<String>,
) -> (r: AdminReply)
    requires
        old(manager).wf(),
    ensures
        final(manager).wf(),
        answers(
            done(old(manager)@, *ctx, text::views(hidden_admin_ids@)),
            r,
            final(manager)@,
        ),
{
    assert(ctx.words().len() == ctx.args@.len());
    let sub: String = if ctx.args.len() == 0 {
        String::new()
    } else {
        ctx.args[0].clone()
    };
    assert(sub@ =~= subcommand(*ctx));
    let s = sub.as_str();
    let gated = text::same(s, "create") || text::same(s, "delete") || text::same(s, "edit")
        || text::same(s, "add") || text::same(s, "remove");
    if gated && !is_admin(&ctx.badges, ctx.sender_id.as_str(), hidden_admin_ids) {
        return say(ADMIN_DENIED_MSG);
    }
    if text::same(s, "create") {
        handle_create(manager, ctx)
    } else if text::same(s, "delete") {
        handle_delete(manager, ctx)
    } else if text::same(s, "edit") {
        handle_edit(manager, ctx)
    } else if text::same(s, "add") {
        handle_member_op(manager, ctx, true)
    } else if text::same(s, "remove") {
        handle_member_op(manager, ctx, false)
    } else if text::same(s, "join") {
        handle_self_op(manager, ctx, true)
    } else if text::same(s, "leave") {
        handle_self_op(manager, ctx, false)
    } else if text::same(s, "list") {
        handle_list(manager, ctx)
    } else {
        say(USAGE)
    }
}

/// Someone who is no admin changes no ping but by joining or leaving.
pub proof fn law_only_admins_manage(b: ping::Board, ctx: CommandContext, hidden: Seq<Seq<char>>)
    requires
        !commands::admin(ctx.badges@, ctx.sender_id@, hidden),
        subcommand(ctx) != "join"@,
        subcommand(ctx) != "leave"@,
    ensures
        done(b, ctx, hidden).board == b,
        !done(b, ctx, hidden).save,
{
}


/// An admin creates, deletes and edits pings under the lower case of the name that they give,
/// and a template is all that they write behind it; where that is refused, nothing changes
/// and they are told why.
pub proof fn law_admins_manage_by_name(b: ping::Board, ctx: CommandContext, hidden: Seq<Seq<char>>)
    requires
        commands::admin(ctx.badges@, ctx.sender_id@, hidden),
        ctx.words().len() >= 3,
    ensures
        ({
            let d = done(b, ctx, hidden);
            let name = text::unicode_lower(ctx.words()[1]);
            let rest = text::join(ctx.words().skip(2), " "@);
            let user = text::unicode_lower(text::strip_leading(ctx.words()[2], '@'));
            let result = if ctx.words()[0] == "create"@ {
                b.created(name, rest, ctx.sender_login@, None)
            } else if ctx.words()[0] == "delete"@ {
                b.deleted(name)
            } else if ctx.words()[0] == "edit"@ {
                b.edited(name, rest)
            } else if ctx.words()[0] == "add"@ {
                b.member_added(name, user)
            } else {
                b.member_removed(name, user)
            };
            ctx.words()[0] == "create"@ || ctx.words()[0] == "delete"@ || ctx.words()[0] == "edit"@
                || ctx.words()[0] == "add"@ || ctx.words()[0] == "remove"@ ==> {
                &&& d.save == result is Ok
                &&& result matches Ok(c) ==> d.board == c && text::has(d.reply, name)
                &&& result matches Err(e) ==> d.board == b && text::has_prefix(d.reply, e)
            }
        }),
{
    broadcast use text::group_parts;

    lemma_words_differ();
}

proof fn lemma_words_differ()
    ensures
        "create"@ != "delete"@ && "create"@ != "edit"@ && "create"@ != "add"@ && "create"@
            != "remove"@ && "create"@ != "join"@ && "create"@ != "leave"@ && "create"@ != "list"@,
        "delete"@ != "edit"@ && "delete"@ != "add"@ && "delete"@ != "remove"@ && "delete"@ != "join"@
            && "delete"@ != "leave"@ && "delete"@ != "list"@,
        "edit"@ != "add"@ && "edit"@ != "remove"@ && "edit"@ != "join"@ && "edit"@ != "leave"@
            && "edit"@ != "list"@,
        "add"@ != "remove"@ && "add"@ != "join"@ && "add"@ != "leave"@ && "add"@ != "list"@,
        "remove"@ != "join"@ && "remove"@ != "leave"@ && "remove"@ != "list"@,
        "join"@ != "leave"@ && "join"@ != "list"@,
        "leave"@ != "list"@,
{
    reveal_strlit("create");
    reveal_strlit("delete");
    reveal_strlit("edit");
    reveal_strlit("add");
    reveal_strlit("remove");
    reveal_strlit("join");
    reveal_strlit("leave");
    reveal_strlit("list");
    assert("create"@[0] == 'c' && "delete"@[0] == 'd' && "edit"@[0] == 'e' && "add"@[0] == 'a');
    assert("remove"@[0] == 'r' && "join"@[0] == 'j');
    assert("leave"@.len() == 5 && "list"@.len() == 4);
    assert("leave"@[0] == 'l' && "list"@[0] == 'l');
}

/// Anyone can join and leave, and only for themselves: the board is that with the sender in
/// the ping, or without them. Asking for the list changes nothing and names each ping of the
/// sender.
pub proof fn law_users_join_for_themselves(
    b: ping::Board,
    ctx: CommandContext,
    hidden: Seq<Seq<char>>,
)
    requires
        ctx.words().len() >= 2,
    ensures
        ({
            let d = done(b, ctx, hidden);
            let name = text::unicode_lower(ctx.words()[1]);
            &&& ctx.words()[0] == "join"@ ==> d.save == b.member_added(
                name,
                ctx.sender_login@,
            ) is Ok && (d.save ==> b.member_added(name, ctx.sender_login@) == Ok::<
                ping::Board,
                Seq<char>,
            >(d.board)) && (!d.save ==> d.board == b)
            &&& ctx.words()[0] == "leave"@ ==> d.save == b.member_removed(
                name,
                ctx.sender_login@,
            ) is Ok && (d.save ==> b.member_removed(name, ctx.sender_login@) == Ok::<
                ping::Board,
                Seq<char>,
            >(d.board)) && (!d.save ==> d.board == b)
            &&& ctx.words()[0] == "list"@ ==> d.board == b && !d.save && forall|i: int|
                0 <= i < ping::subscribed(b.names, b.pings, ctx.sender_login@).len() ==> text::has(
                    d.reply,
                    #[trigger] ping::subscribed(b.names, b.pings, ctx.sender_login@)[i],
                )
        }),
{
    lemma_words_differ();
    let list = ping::subscribed(b.names, b.pings, ctx.sender_login@);
    if ctx.words()[0] == "list"@ {
        assert forall|i: int| 0 <= i < list.len() implies text::has(
            done(b, ctx, hidden).reply,
            #[trigger] list[i],
        ) by {
            text::law_joined_holds_each(list, " "@, i);
        }
    }
}


/// Who names too little is told how to use the subcommand that was meant, and nothing changes.
pub proof fn law_usage_is_told(b: ping::Board, ctx: CommandContext)
    requires
        ctx.words().len() == 1,
    ensures
        text::has(member_done(b, ctx, true).reply, "!p add "@),
        text::has(member_done(b, ctx, false).reply, "!p remove "@),
        text::has(self_done(b, ctx, true).reply, "!p join "@),
        text::has(self_done(b, ctx, false).reply, "!p leave "@),
        text::has(create_done(b, ctx).reply, "!p create "@),
        text::has(delete_done(b, ctx).reply, "!p delete "@),
        text::has(edit_done(b, ctx).reply, "!p edit "@),
        member_done(b, ctx, true).board == b && self_done(b, ctx, true).board == b,
        create_done(b, ctx).board == b && delete_done(b, ctx).board == b,
        edit_done(b, ctx).board == b,
{
    reveal_strlit("!p add ");
    reveal_strlit("!p remove ");
    reveal_strlit("!p join ");
    reveal_strlit("!p leave ");
    reveal_strlit("!p create ");
    reveal_strlit("!p delete ");
    reveal_strlit("!p edit ");
    reveal_strlit("Nutze: !p add <name> <user>");
    reveal_strlit("Nutze: !p remove <name> <user>");
    reveal_strlit("Nutze: !p join <name>");
    reveal_strlit("Nutze: !p leave <name>");
    reveal_strlit("Nutze: !p create <name> <template>");
    reveal_strlit("Nutze: !p delete <name>");
    reveal_strlit("Nutze: !p edit <name> <template>");
    assert("Nutze: !p add <name> <user>"@.subrange(7, 14) =~= "!p add "@);
    assert("Nutze: !p remove <name> <user>"@.subrange(7, 17) =~= "!p remove "@);
    assert("Nutze: !p join <name>"@.subrange(7, 15) =~= "!p join "@);
    assert("Nutze: !p leave <name>"@.subrange(7, 16) =~= "!p leave "@);
    assert("Nutze: !p create <name> <template>"@.subrange(7, 17) =~= "!p create "@);
    assert("Nutze: !p delete <name>"@.subrange(7, 17) =~= "!p delete "@);
    assert("Nutze: !p edit <name> <template>"@.subrange(7, 15) =~= "!p edit "@);
    assert(text::matches_at("Nutze: !p add <name> <user>"@, "!p add "@, 7));
    assert(text::matches_at("Nutze: !p remove <name> <user>"@, "!p remove "@, 7));
    assert(text::matches_at("Nutze: !p join <name>"@, "!p join "@, 7));
    assert(text::matches_at("Nutze: !p leave <name>"@, "!p leave "@, 7));
    assert(text::matches_at("Nutze: !p create <name> <template>"@, "!p create "@, 7));
    assert(text::matches_at("Nutze: !p delete <name>"@, "!p delete "@, 7));
    assert(text::matches_at("Nutze: !p edit <name> <template>"@, "!p edit "@, 7));
}

/// Adding a member and removing one are told apart in the reply, which names both the user
/// and the ping.
pub proof fn law_members_are_told(b: ping::Board, ctx: CommandContext, board: ping::Board)
    requires
        ctx.words().len() >= 3,
    ensures
        ({
            let name = text::unicode_lower(ctx.words()[1]);
            let user = text::unicode_lower(text::strip_leading(ctx.words()[2], '@'));
            &&& b.member_added(name, user) == Ok::<ping::Board, Seq<char>>(board) ==> {
                let d = member_done(b, ctx, true);
                &&& d.board == board && d.save
                &&& text::has_prefix(d.reply, user)
                &&& text::has(d.reply, name)
                &&& text::has_suffix(d.reply, "\" hinzugefügt Okayge"@)
            }
            &&& b.member_removed(name, user) == Ok::<ping::Board, Seq<char>>(board) ==> {
                let d = member_done(b, ctx, false);
                &&& d.board == board && d.save
                &&& text::has_prefix(d.reply, user)
                &&& text::has(d.reply, name)
                &&& text::has_suffix(d.reply, "\" entfernt Okayge"@)
            }
        }),
{
    broadcast use text::group_parts;

}

} // verus!
