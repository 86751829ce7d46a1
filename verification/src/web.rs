//! The part of the library that needs no vault, for browsers.
use crate::engram::EngramSource;
use crate::entry::MemoryId;
use crate::error::{EngramError, ErrorView};
use crate::ids::memory_id_shape;
use crate::noise::{is_noise, noise_reason_of};
use crate::text::{concat3, opt_text, text_eq};
use vstd::prelude::*;

verus! {

/// The version of the library.
pub fn version() -> (r: String)
    ensures
        r@ == "0.1.6"@,
{
    "0.1.6".to_string()
}

/// A new identifier of a memory.
pub fn generate_memory_id() -> (r: String)
    ensures
        memory_id_shape(r@),
{
    MemoryId::new().0
}

/// The name of a source in messages: the stored one, with an underscore where that has a hyphen.
pub open spec fn wire_name(s: EngramSource) -> Seq<char> {
    match s {
        EngramSource::AiSession => "ai_session"@,
        EngramSource::AiTool => "ai_tool"@,
        _ => s.name(),
    }
}

proof fn lemma_wire_names(s: EngramSource)
    ensures
        wire_name(s) == "ai_session"@ ==> s is AiSession,
        wire_name(s) == "ai_tool"@ ==> s is AiTool,
        wire_name(s) != "ai-session"@,
        wire_name(s) != "ai-tool"@,
        wire_name(s) != "infinity_core"@,
{
    reveal_strlit("ai_session");
    reveal_strlit("ai_tool");
    reveal_strlit("ai-session");
    reveal_strlit("ai-tool");
    reveal_strlit("infinity_core");
    assert("ai_session"@.len() == 10 && "ai_tool"@.len() == 7);
    assert("ai-session"@.len() == 10 && "ai-tool"@.len() == 7 && "infinity_core"@.len() == 13);
    assert("ai_session"@[2] == '_' && "ai-session"@[2] == '-');
    assert("ai_tool"@[0] == 'a' && "ai_tool"@[2] == '_' && "ai-tool"@[0] == 'a' && "ai-tool"@[2]
        == '-');
    assert("infinity_core"@[0] == 'i');
    match s {
        EngramSource::AiSession | EngramSource::AiTool => {},
        EngramSource::Interaction => {
            reveal_strlit("interaction");
            assert("interaction"@.len() == 11);
        },
        EngramSource::Sensor => {
            reveal_strlit("sensor");
            assert("sensor"@.len() == 6);
        },
        EngramSource::Consolidation => {
            reveal_strlit("consolidation");
            assert("consolidation"@.len() == 13 && "consolidation"@[0] == 'c');
        },
        EngramSource::Imagined => {
            reveal_strlit("imagined");
            assert("imagined"@.len() == 8);
        },
        EngramSource::Chat => {
            reveal_strlit("chat");
            assert("chat"@.len() == 4);
        },
        EngramSource::Slack => {
            reveal_strlit("slack");
            assert("slack"@.len() == 5);
        },
        EngramSource::Discord => {
            reveal_strlit("discord");
            assert("discord"@.len() == 7 && "discord"@[0] == 'd');
        },
        EngramSource::Telegram => {
            reveal_strlit("telegram");
            assert("telegram"@.len() == 8);
        },
        EngramSource::Window => {
            reveal_strlit("window");
            assert("window"@.len() == 6);
        },
        EngramSource::Mic => {
            reveal_strlit("mic");
            assert("mic"@.len() == 3);
        },
        EngramSource::Agent => {
            reveal_strlit("agent");
            assert("agent"@.len() == 5);
        },
        EngramSource::Research => {
            reveal_strlit("research");
            assert("research"@.len() == 8);
        },
        EngramSource::System => {
            reveal_strlit("system");
            assert("system"@.len() == 6);
        },
        EngramSource::Observation => {
            reveal_strlit("observation");
            assert("observation"@.len() == 11);
        },
    }
}

/// The source that a name in a message stands for.
pub fn wire_source(name: &str) -> (r: Option<EngramSource>)
    ensures
        forall|s: EngramSource| #![trigger wire_name(s)] r == Some(s) <==> wire_name(s) == name@,
{
    proof {
        assert forall|s: EngramSource| wire_name(s) == "ai_session"@ implies s is AiSession by {
            lemma_wire_names(s);
        }
        assert forall|s: EngramSource| wire_name(s) == "ai_tool"@ implies s is AiTool by {
            lemma_wire_names(s);
        }
        assert forall|s: EngramSource| #![trigger wire_name(s)]
            wire_name(s) != "ai-session"@ && wire_name(s) != "ai-tool"@ && wire_name(s)
                != "infinity_core"@ by {
            lemma_wire_names(s);
        }
        assert(wire_name(EngramSource::AiSession) == "ai_session"@);
        assert(wire_name(EngramSource::AiTool) == "ai_tool"@);
    }
    if text_eq(name, "ai_session") {
        return Some(EngramSource::AiSession);
    }
    if text_eq(name, "ai_tool") {
        return Some(EngramSource::AiTool);
    }
    if text_eq(name, "ai-session") || text_eq(name, "ai-tool") || text_eq(name, "infinity_core") {
        return None;
    }
    let r = EngramSource::from_str(name);
    proof {
        assert forall|s: EngramSource| #![trigger wire_name(s)]
            r == Some(s) <==> wire_name(s) == name@ by {
            assert(s.named(name@) <==> r == Some(s));
        }
    }
    r
}

/// Why a capture would be filtered as noise, if it would; an error where the source is unknown.
pub fn noise_reason(content: &str, source: &str) -> (r: Result<Option<String>, EngramError>)
    ensures
        match r {
            Ok(reason) => exists|s: EngramSource| #[trigger]
                wire_name(s) == source@ && opt_text(reason) == noise_reason_of(content@, s),
            Err(e) => {
                &&& forall|s: EngramSource| #[trigger] wire_name(s) != source@
                &&& e@ == ErrorView::Validation("unknown source \""@ + source@ + "\""@)
            },
        },
{
    match wire_source(source) {
        Some(s) => {
            assert(wire_name(s) == source@);
            Ok(is_noise(content, s))
        },
        None => Err(EngramError::Validation(concat3("unknown source \"", source, "\""))),
    }
}

/// On the wire a source bears the name that it is stored under, with underscores where that has
/// hyphens.
pub proof fn law_wire_names_read(s: EngramSource)
    ensures
        wire_name(s) == match s {
            EngramSource::AiSession => "ai_session"@,
            EngramSource::AiTool => "ai_tool"@,
            EngramSource::Interaction => "interaction"@,
            EngramSource::Sensor => "sensor"@,
            EngramSource::Consolidation => "consolidation"@,
            EngramSource::Imagined => "imagined"@,
            EngramSource::Chat => "chat"@,
            EngramSource::Slack => "slack"@,
            EngramSource::Discord => "discord"@,
            EngramSource::Telegram => "telegram"@,
            EngramSource::Window => "window"@,
            EngramSource::Mic => "mic"@,
            EngramSource::Agent => "agent"@,
            EngramSource::Research => "research"@,
            EngramSource::System => "system"@,
            EngramSource::Observation => "observation"@,
        },
{
}

} // verus!
