//! Prompts of the AI assistant.

use vstd::prelude::*;
use crate::text::{str_eq, chars_of, append_chars, string_of, to_string_of};

verus! {

/// System prompt for improving a pre-request script.
pub const PRE_SCRIPT_PROMPT: &'static str = "你是一个API测试脚本专家。请优化或完善用户提供的前置脚本（Pre-request Script）。

前置脚本在请求发送前执行，可以使用以下 fm API：
- fm.environment.get(key) / fm.environment.set(key, value) / fm.environment.getAll() - 环境变量操作
- fm.collection.get(key) / fm.collection.set(key, value) / fm.collection.getAll() - 集合变量操作
- fm.request.getUrl() / fm.request.setUrl(url) - 获取/设置请求URL
- fm.request.getBaseUrl() / fm.request.setBaseUrl(baseUrl) - 获取/设置baseUrl
- fm.request.getPath() / fm.request.setPath(path) - 获取/设置请求路径
- fm.request.getMethod() / fm.request.setMethod(method) - 获取/设置请求方法
- fm.request.getHeader(key) / fm.request.setHeader(key, value) / fm.request.removeHeader(key) / fm.request.getHeaders() - 请求头操作
- fm.request.getBody() / fm.request.setBody(body) - 获取/设置请求体
- fm.log(message) - 输出日志到Console
- fm.assert(condition, message) - 断言检查
- fm.sleep(ms) - 异步等待（毫秒）

请根据用户的需求或现有脚本，优化、完善或生成JavaScript脚本代码。
只返回纯JavaScript代码，不要包含任何解释或markdown格式。";

/// System prompt for improving a post-request script.
pub const POST_SCRIPT_PROMPT: &'static str = "你是一个API测试脚本专家。请优化或完善用户提供的后置脚本（Post-request Script）。

后置脚本在响应返回后执行，可以使用以下 fm API（包括前置脚本所有API）：
- fm.response.getStatus() - 获取响应状态码
- fm.response.getStatusText() - 获取响应状态文本
- fm.response.getHeader(key) / fm.response.getHeaders() - 获取响应头
- fm.response.getBody() - 获取响应体（字符串）
- fm.response.getJson() - 获取响应体（JSON对象）
- fm.response.getTime() - 获取响应时间（ms）
- fm.response.getSize() - 获取响应大小（bytes）
- fm.environment.get(key) / fm.environment.set(key, value) / fm.environment.getAll() - 环境变量操作
- fm.collection.get(key) / fm.collection.set(key, value) / fm.collection.getAll() - 集合变量操作
- fm.log(message) - 输出日志到Console
- fm.assert(condition, message) - 断言检查
- fm.sleep(ms) - 异步等待（毫秒）

请根据用户的需求或现有脚本，优化、完善或生成JavaScript脚本代码。
只返回纯JavaScript代码，不要包含任何解释或markdown格式。";

/// System prompt of the workspace chat, which can call the workspace tools.
pub const WORKSPACE_CHAT_PROMPT: &'static str = "你是 FM Tester 的 API 测试助手。用户正在当前工作区中进行 API 测试与开发。

你可以调用以下工具查询当前工作区的接口信息：
- list_workspace_apis：列出工作区内所有接口（名称、方法、URL、描述、所属集合路径）
- get_api_detail：获取某个接口的完整定义（请求头、请求体、查询参数、表单字段等）
- get_api_doc：获取某个接口的 Markdown 文档（若已编写）
- get_api_responses：获取某个接口已保存的响应示例（响应体内容）
- get_api_history：获取某个接口的请求历史（状态码、响应时间、响应体）
- search_apis：按关键词搜索接口

回答用户关于接口的问题时，请先调用合适的工具获取准确信息，再基于工具返回的数据作答。
不要凭空猜测接口细节。回答使用中文，技术术语可保留英文。如果工具返回的数据不足，可多次调用不同工具。";

/// System prompt for titling a chat session.
pub const CHAT_SUMMARY_PROMPT: &'static str = "你是一个标题生成助手。请根据用户的对话内容生成一个简短、准确的中文标题。\n\n\
         要求：\n\
         - 长度控制在 4 到 12 个字之间\n\
         - 概括对话的核心主题或用户意图\n\
         - 不要使用任何标点符号（引号、句号、逗号等）\n\
         - 不要以“关于”、“询问”、“如何”等无意义前缀开头\n\
         - 直接输出标题文本，不要包含任何额外说明、引号或 markdown 格式";

/// The prompts of the assistant.
pub struct AiDomainService;

impl AiDomainService {
    /// The script prompt: the pre-request one for `pre`, else the
    /// post-request one.
    pub fn get_script_system_prompt(script_type: &str) -> (r: &'static str)
        ensures
            r@ == (if script_type@ == "pre"@ { PRE_SCRIPT_PROMPT@ } else { POST_SCRIPT_PROMPT@ }),
    {
        if str_eq(script_type, "pre") {
            PRE_SCRIPT_PROMPT
        } else {
            POST_SCRIPT_PROMPT
        }
    }

    /// The system prompt of the workspace chat.
    pub fn get_workspace_chat_system_prompt() -> (r: &'static str)
        ensures
            r@ == WORKSPACE_CHAT_PROMPT@,
    {
        WORKSPACE_CHAT_PROMPT
    }

    /// The system prompt for titling a chat session.
    pub fn get_chat_summary_prompt() -> (r: &'static str)
        ensures
            r@ == CHAT_SUMMARY_PROMPT@,
    {
        CHAT_SUMMARY_PROMPT
    }
}

// ---------------------------------------------------------------- tools

/// A function the assistant may call: its name, what it does, and the JSON
/// schema of its parameters as text.
#[derive(Debug)]
pub struct ToolFunctionDef {
    pub name: String,
    pub description: String,
    pub parameters: String,
}

/// A tool in the OpenAI function-calling form.
#[derive(Debug)]
pub struct ToolDef {
    pub tool_type: String,
    pub function: ToolFunctionDef,
}

/// The schema of a tool's parameters: an object without properties, or an
/// object with one required string property and its description.
pub open spec fn params_schema(p: Option<(Seq<char>, Seq<char>)>) -> Seq<char> {
    match p {
        None => "{\"type\":\"object\",\"properties\":{}}"@,
        Some((name, desc)) => "{\"type\":\"object\",\"properties\":{\""@ + name
            + "\":{\"type\":\"string\",\"description\":\""@ + desc + "\"}},\"required\":[\""@ + name
            + "\"]}"@,
    }
}

/// The tools of the workspace chat: name, description and parameter.
pub open spec fn workspace_tools_spec() -> Seq<(Seq<char>, Seq<char>, Option<(Seq<char>, Seq<char>)>)> {
    seq![
        ("list_workspace_apis"@, "列出当前工作区的所有 API 接口，返回每个接口的 id、名称、HTTP 方法、URL、描述及所属集合路径。"@, None),
        ("get_api_detail"@, "根据接口 id 获取单个接口的完整定义，包含请求头、请求体、查询参数、表单字段等。"@,
            Some(("api_id"@, "接口 ID（可从 list_workspace_apis 获取）"@))),
        ("get_api_doc"@, "根据接口 id 获取其 Markdown 格式的 API 文档（若已编写）。"@, Some(("api_id"@, "接口 ID"@))),
        ("get_api_responses"@, "根据接口 id 获取该接口已保存的响应示例（含响应体内容）。"@, Some(("api_id"@, "接口 ID"@))),
        ("get_api_history"@, "根据接口 id 获取该接口的请求历史记录（状态码、响应时间、响应体等）。"@, Some(("api_id"@, "接口 ID"@))),
        ("search_apis"@, "按关键词搜索接口（匹配名称、URL、描述），返回匹配的接口列表。"@, Some(("keyword"@, "搜索关键词"@))),
    ]
}

pub open spec fn tool_view(t: ToolDef) -> (Seq<char>, Seq<char>, Seq<char>, Seq<char>) {
    (t.tool_type@, t.function.name@, t.function.description@, t.function.parameters@)
}

pub open spec fn opt_pair_view(p: Option<(&str, &str)>) -> Option<(Seq<char>, Seq<char>)> {
    match p {
        Some((a, b)) => Some((a@, b@)),
        None => None,
    }
}

fn params_text(param: Option<(&str, &str)>) -> (r: String)
    ensures
        r@ == params_schema(opt_pair_view(param)),
{
    match param {
        None => to_string_of("{\"type\":\"object\",\"properties\":{}}"),
        Some((name, desc)) => {
            let mut v = chars_of("{\"type\":\"object\",\"properties\":{\"");
            append_chars(&mut v, &chars_of(name));
            append_chars(&mut v, &chars_of("\":{\"type\":\"string\",\"description\":\""));
            append_chars(&mut v, &chars_of(desc));
            append_chars(&mut v, &chars_of("\"}},\"required\":[\""));
            append_chars(&mut v, &chars_of(name));
            append_chars(&mut v, &chars_of("\"]}"));
            string_of(&v)
        },
    }
}

fn tool(name: &str, description: &str, param: Option<(&str, &str)>) -> (r: ToolDef)
    ensures
        tool_view(r) == ("function"@, name@, description@, params_schema(opt_pair_view(param))),
{
    ToolDef {
        tool_type: to_string_of("function"),
        function: ToolFunctionDef {
            name: to_string_of(name),
            description: to_string_of(description),
            parameters: params_text(param),
        },
    }
}

/// Whether `t` occurs in `s`.
pub open spec fn contains_text(s: Seq<char>, t: Seq<char>) -> bool {
    exists|k: int| 0 <= k && k + t.len() <= s.len() && #[trigger] s.subrange(k, k + t.len()) == t
}

/// The system prompt of the workspace chat names every tool the chat is
/// offered.
pub proof fn lemma_prompt_names_every_tool()
    ensures
        forall|i: int| 0 <= i < workspace_tools_spec().len() ==> contains_text(
            WORKSPACE_CHAT_PROMPT@,
            #[trigger] workspace_tools_spec()[i].0,
        ),
{
    let p = WORKSPACE_CHAT_PROMPT@;
    reveal_strlit("你是 FM Tester 的 API 测试助手。用户正在当前工作区中进行 API 测试与开发。

你可以调用以下工具查询当前工作区的接口信息：
- list_workspace_apis：列出工作区内所有接口（名称、方法、URL、描述、所属集合路径）
- get_api_detail：获取某个接口的完整定义（请求头、请求体、查询参数、表单字段等）
- get_api_doc：获取某个接口的 Markdown 文档（若已编写）
- get_api_responses：获取某个接口已保存的响应示例（响应体内容）
- get_api_history：获取某个接口的请求历史（状态码、响应时间、响应体）
- search_apis：按关键词搜索接口

回答用户关于接口的问题时，请先调用合适的工具获取准确信息，再基于工具返回的数据作答。
不要凭空猜测接口细节。回答使用中文，技术术语可保留英文。如果工具返回的数据不足，可多次调用不同工具。");
    reveal_strlit("list_workspace_apis");
    reveal_strlit("get_api_detail");
    reveal_strlit("get_api_doc");
    reveal_strlit("get_api_responses");
    reveal_strlit("get_api_history");
    reveal_strlit("search_apis");
    assert(p.subrange(74, 93) =~= "list_workspace_apis"@);
    assert(p.subrange(128, 142) =~= "get_api_detail"@);
    assert(p.subrange(177, 188) =~= "get_api_doc"@);
    assert(p.subrange(217, 234) =~= "get_api_responses"@);
    assert(p.subrange(259, 274) =~= "get_api_history"@);
    assert(p.subrange(303, 314) =~= "search_apis"@);
    assert forall|i: int| 0 <= i < workspace_tools_spec().len() implies contains_text(
        p,
        #[trigger] workspace_tools_spec()[i].0,
    ) by {
        let t = workspace_tools_spec()[i].0;
        if i == 0 {
            assert(p.subrange(74int, 74int + t.len()) == t);
        } else if i == 1 {
            assert(p.subrange(128int, 128int + t.len()) == t);
        } else if i == 2 {
            assert(p.subrange(177int, 177int + t.len()) == t);
        } else if i == 3 {
            assert(p.subrange(217int, 217int + t.len()) == t);
        } else if i == 4 {
            assert(p.subrange(259int, 259int + t.len()) == t);
        } else {
            assert(p.subrange(303int, 303int + t.len()) == t);
        }
    }
}

impl AiDomainService {
    /// The tools offered to the workspace chat, in order, each a
    /// `function` tool.
    pub fn get_workspace_tools() -> (r: Vec<ToolDef>)
        ensures
            r@.len() == workspace_tools_spec().len(),
            forall|i: int| 0 <= i < r@.len() ==> #[trigger] tool_view(r@[i]) == (
                "function"@,
                workspace_tools_spec()[i].0,
                workspace_tools_spec()[i].1,
                params_schema(workspace_tools_spec()[i].2),
            ),
    {
        let mut r: Vec<ToolDef> = Vec::new();
        r.push(tool("list_workspace_apis", "列出当前工作区的所有 API 接口，返回每个接口的 id、名称、HTTP 方法、URL、描述及所属集合路径。", None));
        r.push(tool("get_api_detail", "根据接口 id 获取单个接口的完整定义，包含请求头、请求体、查询参数、表单字段等。",
            Some(("api_id", "接口 ID（可从 list_workspace_apis 获取）"))));
        r.push(tool("get_api_doc", "根据接口 id 获取其 Markdown 格式的 API 文档（若已编写）。", Some(("api_id", "接口 ID"))));
        r.push(tool("get_api_responses", "根据接口 id 获取该接口已保存的响应示例（含响应体内容）。", Some(("api_id", "接口 ID"))));
        r.push(tool("get_api_history", "根据接口 id 获取该接口的请求历史记录（状态码、响应时间、响应体等）。", Some(("api_id", "接口 ID"))));
        r.push(tool("search_apis", "按关键词搜索接口（匹配名称、URL、描述），返回匹配的接口列表。", Some(("keyword", "搜索关键词"))));
        assert(forall|i: int| 0 <= i < r@.len() ==> #[trigger] tool_view(r@[i]) == (
                "function"@,
                workspace_tools_spec()[i].0,
                workspace_tools_spec()[i].1,
                params_schema(workspace_tools_spec()[i].2),
            )) by {
            assert(tool_view(r@[0]).1 == workspace_tools_spec()[0].0);
        }
        r
    }
}

} // verus!
