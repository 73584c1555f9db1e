//! The tool that edits files by patches, as it is described to models.

use vstd::prelude::*;

use crate::text;

verus! {

/// What the tool says of itself where its input is an object.
pub const JSON_TOOL_DESCRIPTION: &'static str = r#"Use the `apply_patch` tool to edit files.
Your patch language is a stripped‑down, file‑oriented diff format designed to be easy to parse and safe to apply. You can think of it as a high‑level envelope:

*** Begin Patch
[ one or more file sections ]
*** End Patch

Within that envelope, you get a sequence of file operations.
You MUST include a header to specify the action you are taking.
Each operation starts with one of three headers:

*** Add File: <path> - create a new file. Every following line is a + line (the initial contents).
*** Delete File: <path> - remove an existing file. Nothing follows.
*** Update File: <path> - patch an existing file in place (optionally with a rename).

May be immediately followed by *** Move to: <new path> if you want to rename the file.
Then one or more “hunks”, each introduced by @@ (optionally followed by a hunk header).
Within a hunk each line starts with:

For instructions on [context_before] and [context_after]:
- By default, show 3 lines of code immediately above and 3 lines immediately below each change. If a change is within 3 lines of a previous change, do NOT duplicate the first change’s [context_after] lines in the second change’s [context_before] lines.
- If 3 lines of context is insufficient to uniquely identify the snippet of code within the file, use the @@ operator to indicate the class or function to which the snippet belongs. For instance, we might have:
@@ class BaseClass
[3 lines of pre-context]
- [old_code]
+ [new_code]
[3 lines of post-context]

- If a code block is repeated so many times in a class or function such that even a single `@@` statement and 3 lines of context cannot uniquely identify the snippet of code, you can use multiple `@@` statements to jump to the right context. For instance:

@@ class BaseClass
@@ 	 def method():
[3 lines of pre-context]
- [old_code]
+ [new_code]
[3 lines of post-context]

The full grammar definition is below:
Patch := Begin { FileOp } End
Begin := "*** Begin Patch" NEWLINE
End := "*** End Patch" NEWLINE
FileOp := AddFile | DeleteFile | UpdateFile
AddFile := "*** Add File: " path NEWLINE { "+" line NEWLINE }
DeleteFile := "*** Delete File: " path NEWLINE
UpdateFile := "*** Update File: " path NEWLINE [ MoveTo ] { Hunk }
MoveTo := "*** Move to: " newPath NEWLINE
Hunk := "@@" [ header ] NEWLINE { HunkLine } [ "*** End of File" NEWLINE ]
HunkLine := (" " | "-" | "+") text NEWLINE

A full patch can combine several operations:

*** Begin Patch
*** Add File: hello.txt
+Hello world
*** Update File: src/app.py
*** Move to: src/main.py
@@ def greet():
-print("Hi")
+print("Hello, world!")
*** Delete File: obsolete.txt
*** End Patch

It is important to remember:

- You must include a header with your intended action (Add/Delete/Update)
- You must prefix new lines with `+` even when creating a new file
- File references can only be relative, NEVER ABSOLUTE.
"#;

/// What is said of environments in the description of the patch.
pub const MULTI_ENV_PATH_DESCRIPTION: &'static str = "In multi-environment turns, each patch must target exactly one selected environment. Omit environment_id to use the primary environment, pass environment_id to target another selected environment, or use oai_env://<environment_id>/<absolute-path> in patch file headers. If both are present, they must match.";

/// What is said of environments where the patch is the whole input.
pub const MULTI_ENV_FREEFORM_PATH_DESCRIPTION: &'static str = "In multi-environment turns, each patch must target exactly one selected environment. Omit env-qualified patch file headers to use the primary environment, or use oai_env://<environment_id>/<absolute-path> in patch file headers to target another selected environment.";

/// The rule on paths where there is one environment.
pub const RELATIVE_PATH_RULE: &'static str = "File references can only be relative, NEVER ABSOLUTE.";

/// The rule on paths where there are several environments.
pub const MULTI_ENV_PATH_RULE: &'static str = "File references can be relative to the selected environment's current working directory, absolute within that environment, or env-qualified as oai_env://<environment_id>/<absolute-path>. Each patch must target exactly one environment.";

/// What is said of the environment that a patch is for.
pub const ENVIRONMENT_DESCRIPTION: &'static str = "Optional selected environment id. Omit to use the primary environment. If patch file headers use oai_env://<environment_id>/<absolute-path>, this value must match.";

/// How the tool is described.
#[derive(Clone, Copy, Debug, PartialEq, Eq, Structural)]
pub struct ApplyPatchToolOptions {
    pub has_multiple_environments: bool,
}

impl Default for ApplyPatchToolOptions {
    fn default() -> (r: Self)
        ensures
            !r.has_multiple_environments,
    {
        ApplyPatchToolOptions { has_multiple_environments: false }
    }
}

/// What the tool is called with where its input is an object.
#[derive(Clone, Debug, PartialEq, Eq)]
pub struct ApplyPatchToolArgs {
    pub input: String,
    pub environment_id: Option<String>,
}

/// A tool whose input is text of a grammar.
#[derive(Debug, PartialEq, Eq)]
pub struct FreeformTool {
    pub name: String,
    pub description: String,
    pub format_type: String,
    pub syntax: String,
    pub definition: String,
}

/// A text in the input of a tool.
#[derive(Debug, PartialEq, Eq)]
pub struct StringProperty {
    pub name: String,
    pub description: String,
}

/// A tool whose input is an object.
#[derive(Debug, PartialEq, Eq)]
pub struct FunctionTool {
    pub name: String,
    pub description: String,
    pub strict: bool,
    /// What the object may hold, by name.
    pub properties: Vec<StringProperty>,
    /// What the object must hold.
    pub required: Vec<String>,
    pub additional_properties: bool,
}

/// A tool.
#[derive(Debug, PartialEq, Eq)]
pub enum ToolSpec {
    Freeform(FreeformTool),
    Function(FunctionTool),
}

/// What the tool says of itself where the patch is the whole input.
pub open spec fn freeform_description(options: ApplyPatchToolOptions) -> Seq<char> {
    let base =
        "Use the `apply_patch` tool to edit files. This is a FREEFORM tool, so do not wrap the patch in JSON."@;
    if options.has_multiple_environments {
        base.push(' ') + MULTI_ENV_FREEFORM_PATH_DESCRIPTION@
    } else {
        base
    }
}

/// What the tool says of itself where its input is an object.
pub open spec fn json_description(options: ApplyPatchToolOptions) -> Seq<char> {
    if options.has_multiple_environments {
        text::replace_all(JSON_TOOL_DESCRIPTION@, RELATIVE_PATH_RULE@, MULTI_ENV_PATH_RULE@)
    } else {
        JSON_TOOL_DESCRIPTION@
    }
}

/// What is said of the patch.
pub open spec fn input_description(options: ApplyPatchToolOptions) -> Seq<char> {
    if options.has_multiple_environments {
        "The entire contents of the apply_patch command. "@ + MULTI_ENV_PATH_DESCRIPTION@
    } else {
        "The entire contents of the apply_patch command"@
    }
}

/// Whether a property is described by texts.
pub open spec fn is_property(p: StringProperty, name: Seq<char>, description: Seq<char>) -> bool {
    p.name@ == name && p.description@ == description
}

/// Whether a tool is the one whose input is a patch.
pub open spec fn is_freeform_tool(
    tool: ToolSpec,
    options: ApplyPatchToolOptions,
    grammar: Seq<char>,
) -> bool {
    match tool {
        ToolSpec::Freeform(t) => {
            &&& t.name@ == "apply_patch"@
            &&& t.description@ == freeform_description(options)
            &&& t.format_type@ == "grammar"@
            &&& t.syntax@ == "lark"@
            &&& t.definition@ == grammar
        },
        ToolSpec::Function(_) => false,
    }
}

/// Whether a tool is the one whose input is an object that holds a patch.
pub open spec fn is_json_tool(tool: ToolSpec, options: ApplyPatchToolOptions) -> bool {
    match tool {
        ToolSpec::Freeform(_) => false,
        ToolSpec::Function(t) => {
            &&& t.name@ == "apply_patch"@
            &&& t.description@ == json_description(options)
            &&& !t.strict
            &&& !t.additional_properties
            &&& text::string_views(t.required@) == seq!["input"@]
            &&& if options.has_multiple_environments {
                &&& t.properties@.len() == 2
                &&& is_property(t.properties@[0], "environment_id"@, ENVIRONMENT_DESCRIPTION@)
                &&& is_property(t.properties@[1], "input"@, input_description(options))
            } else {
                &&& t.properties@.len() == 1
                &&& is_property(t.properties@[0], "input"@, input_description(options))
            }
        },
    }
}

fn apply_patch_json_tool_description(options: ApplyPatchToolOptions) -> (r: String)
    ensures
        r@ == json_description(options),
{
    if options.has_multiple_environments {
        let description = text::chars_of(JSON_TOOL_DESCRIPTION);
        let from = text::chars_of(RELATIVE_PATH_RULE);
        let to = text::chars_of(MULTI_ENV_PATH_RULE);
        proof {
            reveal_strlit("File references can only be relative, NEVER ABSOLUTE.");
        }
        let replaced = text::replace_str(description.as_slice(), from.as_slice(), to.as_slice());
        text::string_of(replaced.as_slice())
    } else {
        JSON_TOOL_DESCRIPTION.to_owned()
    }
}

fn apply_patch_input_description(options: ApplyPatchToolOptions) -> (r: String)
    ensures
        r@ == input_description(options),
{
    if options.has_multiple_environments {
        let mut r = "The entire contents of the apply_patch command. ".to_owned();
        r.push_str(MULTI_ENV_PATH_DESCRIPTION);
        r
    } else {
        "The entire contents of the apply_patch command".to_owned()
    }
}

/// The tool whose input is a patch. `grammar` is the grammar of patches.
pub fn create_apply_patch_freeform_tool(grammar: &str) -> (r: ToolSpec)
    ensures
        is_freeform_tool(
            r,
            (ApplyPatchToolOptions { has_multiple_environments: false }),
            grammar@,
        ),
{
    create_apply_patch_freeform_tool_with_options(
        ApplyPatchToolOptions { has_multiple_environments: false },
        grammar,
    )
}

/// The tool whose input is a patch. `grammar` is the grammar of patches.
pub fn create_apply_patch_freeform_tool_with_options(
    options: ApplyPatchToolOptions,
    grammar: &str,
) -> (r: ToolSpec)
    ensures
        is_freeform_tool(r, options, grammar@),
{
    let mut description =
        "Use the `apply_patch` tool to edit files. This is a FREEFORM tool, so do not wrap the patch in JSON.".to_owned();
    if options.has_multiple_environments {
        description.push(' ');
        description.push_str(MULTI_ENV_FREEFORM_PATH_DESCRIPTION);
    }
    ToolSpec::Freeform(
        FreeformTool {
            name: "apply_patch".to_owned(),
            description,
            format_type: "grammar".to_owned(),
            syntax: "lark".to_owned(),
            definition: grammar.to_owned(),
        },
    )
}

/// The tool whose input is an object that holds a patch.
pub fn create_apply_patch_json_tool() -> (r: ToolSpec)
    ensures
        is_json_tool(r, (ApplyPatchToolOptions { has_multiple_environments: false })),
{
    create_apply_patch_json_tool_with_options(
        ApplyPatchToolOptions { has_multiple_environments: false },
    )
}

/// The tool whose input is an object that holds a patch.
pub fn create_apply_patch_json_tool_with_options(options: ApplyPatchToolOptions) -> (r: ToolSpec)
    ensures
        is_json_tool(r, options),
{
    let mut properties: Vec<StringProperty> = Vec::new();
    if options.has_multiple_environments {
        properties.push(
            StringProperty {
                name: "environment_id".to_owned(),
                description: ENVIRONMENT_DESCRIPTION.to_owned(),
            },
        );
    }
    properties.push(
        StringProperty {
            name: "input".to_owned(),
            description: apply_patch_input_description(options),
        },
    );
    let mut required: Vec<String> = Vec::new();
    required.push("input".to_owned());
    assert(text::string_views(required@) =~= seq!["input"@]);
    ToolSpec::Function(
        FunctionTool {
            name: "apply_patch".to_owned(),
            description: apply_patch_json_tool_description(options),
            strict: false,
            properties,
            required,
            additional_properties: false,
        },
    )
}

/// With several environments the tools are described as with one and told how to name them besides.
pub proof fn several_environments_are_described_besides(grammar: Seq<char>, tool: ToolSpec)
    ensures
        ({
            let one = ApplyPatchToolOptions { has_multiple_environments: false };
            let several = ApplyPatchToolOptions { has_multiple_environments: true };
            &&& freeform_description(several) == freeform_description(one) + seq![' ']
                + MULTI_ENV_FREEFORM_PATH_DESCRIPTION@
            &&& text::has_suffix(input_description(several), MULTI_ENV_PATH_DESCRIPTION@)
            &&& json_description(one) == JSON_TOOL_DESCRIPTION@
            &&& json_description(several) == text::replace_all(
                json_description(one),
                RELATIVE_PATH_RULE@,
                MULTI_ENV_PATH_RULE@,
            )
            &&& is_freeform_tool(tool, one, grammar) ==> tool is Freeform && tool->Freeform_0.name@
                == "apply_patch"@ && tool->Freeform_0.definition@ == grammar
            &&& is_json_tool(tool, one) ==> tool is Function && tool->Function_0.properties@.len()
                == 1 && tool->Function_0.properties@[0].name@ == "input"@
            &&& is_json_tool(tool, several) ==> tool is Function
                && tool->Function_0.properties@.len() == 2 && tool->Function_0.properties@[0].name@
                == "environment_id"@ && tool->Function_0.properties@[1].name@ == "input"@
            &&& is_json_tool(tool, several) ==> text::string_views(tool->Function_0.required@)
                == seq!["input"@] && tool->Function_0.name@ == "apply_patch"@
        }),
{
    let one = ApplyPatchToolOptions { has_multiple_environments: false };
    let several = ApplyPatchToolOptions { has_multiple_environments: true };
    assert(freeform_description(several) =~= freeform_description(one) + seq![' ']
        + MULTI_ENV_FREEFORM_PATH_DESCRIPTION@);
    text::texts_hold_their_parts(
        "The entire contents of the apply_patch command. "@,
        MULTI_ENV_PATH_DESCRIPTION@,
        Seq::empty(),
    );
}

} // verus!
