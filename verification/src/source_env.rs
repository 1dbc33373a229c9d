//! The variables through which the proxy is handed secrets.
use vstd::prelude::*;
use vstd::string::StringSliceAdditionalSpecFns;

verus! {

/// What stands for a byte in the name of a variable: a letter in upper case, a digit, or an
/// underscore in place of anything else.
pub open spec fn variable_char(byte: u8) -> char {
    if 0x61 <= byte <= 0x7a {
        (byte - 0x20) as char
    } else if 0x41 <= byte <= 0x5a || 0x30 <= byte <= 0x39 {
        byte as char
    } else {
        '_'
    }
}

/// The variable that holds the secret of the credential `name`.
pub open spec fn source_variable(name: Seq<char>) -> Seq<char> {
    "NONO_TOOL_SANDBOX_PROXY_CREDENTIAL_"@ + vstd::utf8::encode_utf8(name).map_values(
        |byte: u8| variable_char(byte),
    )
}

/// The variable that holds the secret of the credential `name`.
pub fn proxy_source_env_var(name: &str) -> (out: String)
    ensures
        out@ == source_variable(name@),
{
    let mut out = "NONO_TOOL_SANDBOX_PROXY_CREDENTIAL_".to_owned();
    let ghost prefix = out@;
    let bytes = name.as_bytes();
    let ghost tail = bytes@.map_values(|byte: u8| variable_char(byte));
    let mut i: usize = 0;
    assert(out@ =~= prefix + tail.take(0));
    while i < bytes.len()
        invariant
            i <= bytes@.len(),
            tail == bytes@.map_values(|byte: u8| variable_char(byte)),
            out@ == prefix + tail.take(i as int),
        decreases bytes@.len() - i,
    {
        let byte = bytes[i];
        let ch = if 0x61 <= byte && byte <= 0x7a {
            (byte - 0x20) as char
        } else if (0x41 <= byte && byte <= 0x5a) || (0x30 <= byte && byte <= 0x39) {
            byte as char
        } else {
            '_'
        };
        out.push(ch);
        assert(tail.take(i + 1) =~= tail.take(i as int).push(ch));
        i = i + 1;
        assert(out@ =~= prefix + tail.take(i as int));
    }
    assert(tail.take(i as int) =~= tail);
    out
}

/// The variable's name holds upper-case letters, digits and underscores only, whatever the
/// credential is called, and is as much longer than its fixed part as the credential's name has
/// bytes.
pub proof fn lemma_source_variable_is_a_name(name: Seq<char>)
    ensures
        source_variable(name).len() == "NONO_TOOL_SANDBOX_PROXY_CREDENTIAL_"@.len()
            + vstd::utf8::encode_utf8(name).len(),
        forall|i: int|
            0 <= i < source_variable(name).len() ==> {
                let c = #[trigger] source_variable(name)[i];
                ('A' <= c <= 'Z') || ('0' <= c <= '9') || c == '_'
            },
{
    reveal_strlit("NONO_TOOL_SANDBOX_PROXY_CREDENTIAL_");
    let prefix = "NONO_TOOL_SANDBOX_PROXY_CREDENTIAL_"@;
    let bytes = vstd::utf8::encode_utf8(name);
    assert forall|i: int| 0 <= i < source_variable(name).len() implies {
        let c = #[trigger] source_variable(name)[i];
        ('A' <= c <= 'Z') || ('0' <= c <= '9') || c == '_'
    } by {
        if i < prefix.len() {
            assert(source_variable(name)[i] == prefix[i]);
        } else {
            let byte = bytes[i - prefix.len()];
            assert(source_variable(name)[i] == variable_char(byte));
        }
    }
}

/// The variable is a fixed beginning and one character for each byte of the credential's name:
/// capitals and digits stand for themselves, small letters for their capitals, and an underscore
/// for everything else.
pub proof fn lemma_source_variable_spells_the_name(name: Seq<char>)
    ensures
        ({
            let variable = source_variable(name);
            let bytes = vstd::utf8::encode_utf8(name);
            let fixed = "NONO_TOOL_SANDBOX_PROXY_CREDENTIAL_"@;
            &&& variable.len() == fixed.len() + bytes.len()
            &&& variable.take(fixed.len() as int) == fixed
            &&& forall|i: int|
                0 <= i < bytes.len() ==> {
                    let c = variable[fixed.len() + i] as int;
                    let b = #[trigger] bytes[i] as int;
                    &&& 'A' as int <= b <= 'Z' as int ==> c == b
                    &&& '0' as int <= b <= '9' as int ==> c == b
                    &&& 'a' as int <= b <= 'z' as int ==> c == b - 'a' as int + 'A' as int
                    &&& !('A' as int <= b <= 'Z' as int) && !('0' as int <= b <= '9' as int) && !(
                    'a' as int <= b <= 'z' as int) ==> c == '_' as int
                }
        }),
{
    let variable = source_variable(name);
    let bytes = vstd::utf8::encode_utf8(name);
    let fixed = "NONO_TOOL_SANDBOX_PROXY_CREDENTIAL_"@;
    assert(variable.take(fixed.len() as int) =~= fixed);
    assert forall|i: int| 0 <= i < bytes.len() implies variable[fixed.len() + i] == variable_char(
        #[trigger] bytes[i],
    ) by {}
}

} // verus!
