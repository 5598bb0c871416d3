//! The parsed form of a template: its variables, its filter chains, and the
//! text that the generated script prints.

use vstd::prelude::*;

verus! {

/// A variable of a template.
#[derive(Debug, PartialEq)]
pub struct Variable<'a> {
    /// The variable's name, as written in the template.
    pub variable: &'a str,
    /// The value taken when the script is given none, already escaped.
    pub default: Option<String>,
    /// The line shown for the variable in the script's help, already escaped.
    pub description: Option<String>,
}

/// A variable as contracts see it.
pub struct VariableView {
    pub name: Seq<char>,
    pub default: Option<Seq<char>>,
    pub description: Option<Seq<char>>,
}

/// The characters of an optional string.
pub open spec fn text_of(s: Option<String>) -> Option<Seq<char>> {
    match s {
        Some(t) => Some(t@),
        None => None,
    }
}

/// A variable that has a name and nothing else.
pub open spec fn plain_variable(name: Seq<char>) -> VariableView {
    VariableView { name, default: None, description: None }
}

impl<'a> View for Variable<'a> {
    type V = VariableView;

    open spec fn view(&self) -> VariableView {
        VariableView {
            name: self.variable@,
            default: text_of(self.default),
            description: text_of(self.description),
        }
    }
}

impl<'a> Variable<'a> {
    /// A variable named `variable`, without default and without description.
    pub fn new(variable: &'a str) -> (v: Self)
        ensures
            v@ == plain_variable(variable@),
    {
        Self { variable, default: None, description: None }
    }
}

/// A variable that a template passes through a chain of filters.
#[derive(Debug, PartialEq)]
pub struct FilteredVariable<'a> {
    /// The variable that the chain starts from.
    pub variable: &'a str,
    /// The filters, in the order in which the template names them.
    pub filters: Vec<&'a str>,
    /// The name under which the script holds the filtered value.
    pub name: String,
}

/// A filtered variable as contracts see it.
pub struct FilteredView {
    pub source: Seq<char>,
    pub filters: Seq<Seq<char>>,
    pub name: Seq<char>,
}

/// The characters of each of `items`.
pub open spec fn texts_of(items: Seq<&str>) -> Seq<Seq<char>> {
    Seq::new(items.len(), |i: int| items[i]@)
}

impl<'a> View for FilteredVariable<'a> {
    type V = FilteredView;

    open spec fn view(&self) -> FilteredView {
        FilteredView {
            source: self.variable@,
            filters: texts_of(self.filters@),
            name: self.name@,
        }
    }
}

/// A parsed template.
#[derive(Debug)]
pub struct Template<'a> {
    /// The template as it was written.
    pub original: &'a str,
    /// The text that the script prints: the template with each placeholder
    /// replaced by a reference to a shell variable, and the text around them
    /// escaped.
    pub generated: String,
    /// The variables, in the order in which the template first names them.
    pub variables: Vec<Variable<'a>>,
    /// Whether the template itself names the variable `name`.
    pub is_name_used: bool,
    /// The filter chains, each once, in the order in which the template
    /// first uses them.
    pub filtered: Vec<FilteredVariable<'a>>,
}

/// A parsed template as contracts see it.
pub struct TemplateView {
    pub original: Seq<char>,
    pub skeleton: Seq<char>,
    pub variables: Seq<VariableView>,
    pub name_is_explicit: bool,
    pub filtered: Seq<FilteredView>,
}

/// The views of `items`.
pub open spec fn variable_views(items: Seq<Variable>) -> Seq<VariableView> {
    Seq::new(items.len(), |i: int| items[i]@)
}

/// The views of `items`.
pub open spec fn filtered_views(items: Seq<FilteredVariable>) -> Seq<FilteredView> {
    Seq::new(items.len(), |i: int| items[i]@)
}

impl<'a> View for Template<'a> {
    type V = TemplateView;

    open spec fn view(&self) -> TemplateView {
        TemplateView {
            original: self.original@,
            skeleton: self.generated@,
            variables: variable_views(self.variables@),
            name_is_explicit: self.is_name_used,
            filtered: filtered_views(self.filtered@),
        }
    }
}

} // verus!
