//! The tools that the memory offers to language models. The extractor, which runs after
//! every exchange, can only save and inspect; merging, dropping and editing are reserved
//! for the daily consolidator.
use vstd::prelude::*;
use crate::llm;
use crate::llm::ToolDefinition;

verus! {

pub const SAVE_MEMORY: &'static str = "save_memory";

pub const SAVE_MEMORY_DESCRIPTION: &'static str = "Save or update a long-term fact. Use a short descriptive slug. For user/pref scopes, subject_id must equal the current speaker's user_id (regular users) or any user (moderator/broadcaster, except Pref stays self-only). Lore is moderator/broadcaster-only. Overwrites if a memory with the same (scope, subject_id, slug) already exists.";

pub const SAVE_MEMORY_PARAMETERS: &'static str = "{\"properties\":{\"fact\":{\"description\":\"The fact to remember.\",\"type\":\"string\"},\"scope\":{\"enum\":[\"user\",\"lore\",\"pref\"],\"type\":\"string\"},\"slug\":{\"description\":\"Short slug identifier for this memory (lowercase, dashes).\",\"type\":\"string\"},\"subject_id\":{\"description\":\"Twitch numeric user-id of the subject. Required for user/pref. Omit for lore.\",\"type\":\"string\"}},\"required\":[\"scope\",\"slug\",\"fact\"],\"type\":\"object\"}";

pub const GET_MEMORIES: &'static str = "get_memories";

pub const GET_MEMORIES_DESCRIPTION: &'static str = "Read-only listing of memories in a given scope, optionally filtered by subject_id.";

pub const GET_MEMORIES_PARAMETERS: &'static str = "{\"properties\":{\"scope\":{\"enum\":[\"user\",\"lore\",\"pref\"],\"type\":\"string\"},\"subject_id\":{\"type\":\"string\"}},\"required\":[\"scope\"],\"type\":\"object\"}";

pub const MERGE_MEMORIES: &'static str = "merge_memories";

pub const MERGE_MEMORIES_DESCRIPTION: &'static str = "Combine 2+ memories of the same scope and subject into a single canonical entry with a new slug and fact. Metadata (sources, confidence, timestamps, access_count) is merged deterministically by the store.";

pub const MERGE_MEMORIES_PARAMETERS: &'static str = "{\"properties\":{\"keys\":{\"items\":{\"type\":\"string\"},\"minItems\":2,\"type\":\"array\"},\"new_fact\":{\"type\":\"string\"},\"new_slug\":{\"type\":\"string\"}},\"required\":[\"keys\",\"new_slug\",\"new_fact\"],\"type\":\"object\"}";

pub const DROP_MEMORY: &'static str = "drop_memory";

pub const DROP_MEMORY_DESCRIPTION: &'static str = "Remove a memory outright (contradicted, hallucinated, or stale beyond recovery).";

pub const EDIT_MEMORY: &'static str = "edit_memory";

pub const EDIT_MEMORY_DESCRIPTION: &'static str = "Refine a memory without merging. Apply signed confidence_delta in [-50, +30] (clamped to [0,100]), remove one source from provenance, or replace the fact wording. Do not use to change the subject or the core claim (that is merge or drop).";

pub const EDIT_MEMORY_PARAMETERS: &'static str = "{\"properties\":{\"confidence_delta\":{\"maximum\":30,\"minimum\":-50,\"type\":\"integer\"},\"drop_source\":{\"description\":\"Exact username to remove from sources.\",\"type\":\"string\"},\"fact\":{\"type\":\"string\"},\"key\":{\"type\":\"string\"}},\"required\":[\"key\"],\"type\":\"object\"}";

pub const GET_MEMORY: &'static str = "get_memory";

pub const GET_MEMORY_DESCRIPTION: &'static str = "Read a single memory by key.";

pub const KEY_PARAMETERS: &'static str = "{\"properties\":{\"key\":{\"type\":\"string\"}},\"required\":[\"key\"],\"type\":\"object\"}";

/// The tools of the extractor: saving and reading.
pub open spec fn extractor_surface() -> Seq<llm::Tool> {
    seq![
        llm::Tool {
            name: SAVE_MEMORY@,
            description: SAVE_MEMORY_DESCRIPTION@,
            parameters: SAVE_MEMORY_PARAMETERS@,
        },
        llm::Tool {
            name: GET_MEMORIES@,
            description: GET_MEMORIES_DESCRIPTION@,
            parameters: GET_MEMORIES_PARAMETERS@,
        },
    ]
}

pub fn extractor_tools() -> (r: Vec<ToolDefinition>)
    ensures
        llm::tools_of(r@) == extractor_surface(),
{
    let mut tools: Vec<ToolDefinition> = Vec::new();
    tools.push(ToolDefinition::new(SAVE_MEMORY, SAVE_MEMORY_DESCRIPTION, SAVE_MEMORY_PARAMETERS));
    tools.push(
        ToolDefinition::new(GET_MEMORIES, GET_MEMORIES_DESCRIPTION, GET_MEMORIES_PARAMETERS),
    );
    assert(llm::tools_of(tools@) =~= extractor_surface());
    tools
}

/// The tools of the consolidator: reworking what is stored.
pub open spec fn consolidator_surface() -> Seq<llm::Tool> {
    seq![
        llm::Tool {
            name: MERGE_MEMORIES@,
            description: MERGE_MEMORIES_DESCRIPTION@,
            parameters: MERGE_MEMORIES_PARAMETERS@,
        },
        llm::Tool {
            name: DROP_MEMORY@,
            description: DROP_MEMORY_DESCRIPTION@,
            parameters: KEY_PARAMETERS@,
        },
        llm::Tool {
            name: EDIT_MEMORY@,
            description: EDIT_MEMORY_DESCRIPTION@,
            parameters: EDIT_MEMORY_PARAMETERS@,
        },
        llm::Tool {
            name: GET_MEMORY@,
            description: GET_MEMORY_DESCRIPTION@,
            parameters: KEY_PARAMETERS@,
        },
    ]
}

pub fn consolidator_tools() -> (r: Vec<ToolDefinition>)
    ensures
        llm::tools_of(r@) == consolidator_surface(),
{
    let mut tools: Vec<ToolDefinition> = Vec::new();
    tools.push(
        ToolDefinition::new(
            MERGE_MEMORIES,
            MERGE_MEMORIES_DESCRIPTION,
            MERGE_MEMORIES_PARAMETERS,
        ),
    );
    tools.push(ToolDefinition::new(DROP_MEMORY, DROP_MEMORY_DESCRIPTION, KEY_PARAMETERS));
    tools.push(ToolDefinition::new(EDIT_MEMORY, EDIT_MEMORY_DESCRIPTION, EDIT_MEMORY_PARAMETERS));
    tools.push(ToolDefinition::new(GET_MEMORY, GET_MEMORY_DESCRIPTION, KEY_PARAMETERS));
    assert(llm::tools_of(tools@) =~= consolidator_surface());
    tools
}

/// No tool is offered to both the extractor and the consolidator.
pub proof fn law_tool_surfaces_are_disjoint(i: int, j: int)
    requires
        0 <= i < extractor_surface().len(),
        0 <= j < consolidator_surface().len(),
    ensures
        extractor_surface()[i].name != consolidator_surface()[j].name,
{
    reveal_strlit("save_memory");
    reveal_strlit("get_memories");
    reveal_strlit("merge_memories");
    reveal_strlit("drop_memory");
    reveal_strlit("edit_memory");
    reveal_strlit("get_memory");
    assert(SAVE_MEMORY@[0] == 's');
    assert(GET_MEMORIES@.len() == 12);
    assert(MERGE_MEMORIES@[0] == 'm');
    assert(DROP_MEMORY@[0] == 'd');
    assert(EDIT_MEMORY@[0] == 'e');
    assert(GET_MEMORY@.len() == 10);
    assert(GET_MEMORY@[0] == 'g');
    assert(GET_MEMORIES@[0] == 'g');
}

/// A tool of the consolidator, called by the extractor, changes nothing and is answered
/// as unknown.
pub proof fn law_extractor_cannot_rework(
    shelf: crate::memory::store::Shelf,
    call: llm::Call,
    by: crate::memory::store::Asker,
    j: int,
)
    requires
        0 <= j < consolidator_surface().len(),
        call.name == consolidator_surface()[j].name,
        call.parse_error is None,
    ensures
        ({
            let a = crate::memory::store::extractor_answer(shelf, call, by);
            &&& a.shelf == shelf
            &&& a.reply == "Unknown tool: "@ + call.name
        }),
{
    law_tool_surfaces_are_disjoint(0, j);
    law_tool_surfaces_are_disjoint(1, j);
}

} // verus!
