//! The tools the tray menu lists, and the front-end route of each: the same
//! tools the front end registers.
use vstd::prelude::*;

use crate::text::str_eq;

verus! {

broadcast use vstd::string::group_string_axioms;

/// A tool that the tray menu lists.
#[derive(Debug)]
pub struct ToolDef {
    pub id: &'static str,
    pub name: &'static str,
    pub route: &'static str,
}

/// The listed tools, in menu order: id, name, route.
pub open spec fn tool_table() -> Seq<(Seq<char>, Seq<char>, Seq<char>)> {
    seq![
        ("clash-service"@, "Clash 订阅服务"@, "/tool/clash-service"@),
        ("color-picker"@, "取色器"@, "/tool/color-picker"@),
        ("image-editor"@, "图片编辑器"@, "/tool/image-editor"@),
    ]
}

/// The listed tools, in menu order.
pub fn tools() -> (r: Vec<ToolDef>)
    ensures
        r@.len() == tool_table().len(),
        forall|i: int|
            0 <= i < r@.len() ==> (#[trigger] r@[i].id@, r@[i].name@, r@[i].route@) == tool_table()[i],
{
    let r = vec![
        ToolDef { id: "clash-service", name: "Clash 订阅服务", route: "/tool/clash-service" },
        ToolDef { id: "color-picker", name: "取色器", route: "/tool/color-picker" },
        ToolDef { id: "image-editor", name: "图片编辑器", route: "/tool/image-editor" },
    ];
    assert(r@[0].id@ == "clash-service"@);
    r
}

/// The route of the tool with `id`, if it is listed.
pub open spec fn route_of(id: Seq<char>) -> Option<Seq<char>> {
    if id == "clash-service"@ {
        Some("/tool/clash-service"@)
    } else if id == "color-picker"@ {
        Some("/tool/color-picker"@)
    } else if id == "image-editor"@ {
        Some("/tool/image-editor"@)
    } else {
        None
    }
}

/// The route of the first listed tool with `id`.
pub fn route_for(id: &str) -> (r: Option<&'static str>)
    ensures
        match r {
            Some(route) => route_of(id@) == Some(route@),
            None => route_of(id@) is None,
        },
{
    let table = tools();
    let mut i: usize = 0;
    while i < table.len()
        invariant
            table@.len() == tool_table().len(),
            forall|j: int|
                0 <= j < table@.len() ==> (#[trigger] table@[j].id@, table@[j].name@, table@[j].route@)
                    == tool_table()[j],
            i <= table@.len(),
            forall|j: int| 0 <= j < i ==> tool_table()[j].0 != id@,
        decreases table@.len() - i,
    {
        if str_eq(table[i].id, id) {
            proof {
                reveal_strlit("clash-service");
                reveal_strlit("color-picker");
                reveal_strlit("image-editor");
                assert(table@[i as int].id@ == tool_table()[i as int].0);
            }
            return Some(table[i].route);
        }
        proof {
            assert(table@[i as int].id@ == tool_table()[i as int].0);
        }
        i = i + 1;
    }
    proof {
        assert(tool_table()[0].0 != id@ && tool_table()[1].0 != id@ && tool_table()[2].0 != id@);
    }
    None
}

} // verus!
