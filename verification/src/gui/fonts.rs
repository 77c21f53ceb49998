//! The monospaced faces that the stream view offers.

use vstd::prelude::*;
use vstd::string::*;

use crate::model::metadata::optional_text;
use crate::text::same_text;

verus! {

/// A face of the stream view.
#[derive(Clone, Copy, Debug, PartialEq, Eq, Structural)]
pub enum MonoFont {
    Cascadia,
    JetBrains,
}

impl Default for MonoFont {
    fn default() -> (r: MonoFont)
        ensures
            r == MonoFont::Cascadia,
    {
        MonoFont::Cascadia
    }
}

impl MonoFont {
    /// The faces in the order in which they are offered.
    pub fn all() -> (r: Vec<MonoFont>)
        ensures
            r@ == seq![MonoFont::Cascadia, MonoFont::JetBrains],
    {
        let mut v: Vec<MonoFont> = Vec::new();
        v.push(MonoFont::Cascadia);
        v.push(MonoFont::JetBrains);
        assert(v@ =~= seq![MonoFont::Cascadia, MonoFont::JetBrains]);
        v
    }

    /// What the face is called in the picker.
    pub fn label(self) -> (r: &'static str)
        ensures
            r@ == match self {
                MonoFont::Cascadia => "Cascadia Mono"@,
                MonoFont::JetBrains => "JetBrains Mono"@,
            },
    {
        match self {
            MonoFont::Cascadia => "Cascadia Mono",
            MonoFont::JetBrains => "JetBrains Mono",
        }
    }

    pub open spec fn name_spec(self) -> Seq<char> {
        match self {
            MonoFont::Cascadia => "cascadia"@,
            MonoFont::JetBrains => "jetbrains"@,
        }
    }

    /// The token that a profile keeps of the face.
    pub fn name(self) -> (r: &'static str)
        ensures
            r@ == self.name_spec(),
    {
        match self {
            MonoFont::Cascadia => "cascadia",
            MonoFont::JetBrains => "jetbrains",
        }
    }

    /// The face of a token. An unknown token, and none, is the default face.
    pub open spec fn of_name(name: Option<Seq<char>>) -> MonoFont {
        if name == Some("jetbrains"@) {
            MonoFont::JetBrains
        } else {
            MonoFont::Cascadia
        }
    }

    /// The face of a token.
    pub fn from_name(name: &Option<String>) -> (r: MonoFont)
        ensures
            r == MonoFont::of_name(optional_text(*name)),
    {
        match name {
            Some(n) => if same_text(n.as_str(), "jetbrains") {
                MonoFont::JetBrains
            } else {
                MonoFont::Cascadia
            },
            None => MonoFont::Cascadia,
        }
    }
}

/// A face comes back from its token.
pub proof fn law_font_round_trip(font: MonoFont)
    ensures
        MonoFont::of_name(Some(font.name_spec())) == font,
{
    reveal_strlit("cascadia");
    reveal_strlit("jetbrains");
    assert("cascadia"@[0] == 'c');
    assert("jetbrains"@[0] == 'j');
}

} // verus!
