//! The arguments of `#[sync(...)]`.
use vstd::prelude::*;

use crate::bytes;

verus! {

/// Handle of an expression that the caller holds.
#[derive(Clone, Copy, Debug, PartialEq, Eq, Structural)]
pub struct ExprId(pub usize);

/// One piece of the text between the brackets.
#[derive(Debug)]
pub enum ArgPiece {
    /// An identifier.
    Word(String),
    /// `=`
    Equals,
    /// `,`
    Comma,
    /// Expressions in parentheses, separated by commas.
    Group(Vec<ExprId>),
    /// An expression.
    Value(ExprId),
    /// Anything else.
    Other,
}

/// What an [`ArgPiece`] is.
#[verifier::ext_equal]
pub enum PieceView {
    Word(Seq<char>),
    Equals,
    Comma,
    Group(Seq<ExprId>),
    Value(ExprId),
    Other,
}

impl View for ArgPiece {
    type V = PieceView;

    open spec fn view(&self) -> PieceView {
        match *self {
            ArgPiece::Word(word) => PieceView::Word(word@),
            ArgPiece::Equals => PieceView::Equals,
            ArgPiece::Comma => PieceView::Comma,
            ArgPiece::Group(exprs) => PieceView::Group(exprs@),
            ArgPiece::Value(expr) => PieceView::Value(expr),
            ArgPiece::Other => PieceView::Other,
        }
    }
}

/// What each piece of a list is.
pub open spec fn piece_views(pieces: Seq<ArgPiece>) -> Seq<PieceView> {
    pieces.map_values(|piece: ArgPiece| piece@)
}

/// One argument of `#[sync(...)]`.
#[derive(Debug)]
pub enum SyncArg {
    /// `resource`
    Resource,
    /// `prefab(...)`
    Prefab(Vec<ExprId>),
    /// `interval = ...`
    Interval(ExprId),
    /// `heartbeat = ...`
    Heartbeat(ExprId),
}

/// What a [`SyncArg`] says.
#[verifier::ext_equal]
pub enum ArgView {
    Resource,
    Prefab(Seq<ExprId>),
    Interval(ExprId),
    Heartbeat(ExprId),
}

impl View for SyncArg {
    type V = ArgView;

    open spec fn view(&self) -> ArgView {
        match *self {
            SyncArg::Resource => ArgView::Resource,
            SyncArg::Prefab(exprs) => ArgView::Prefab(exprs@),
            SyncArg::Interval(expr) => ArgView::Interval(expr),
            SyncArg::Heartbeat(expr) => ArgView::Heartbeat(expr),
        }
    }
}

/// What each argument of a list says.
pub open spec fn arg_views(args: Seq<SyncArg>) -> Seq<ArgView> {
    args.map_values(|arg: SyncArg| arg@)
}

/// All arguments of `#[sync(...)]` taken together.
#[derive(Debug)]
pub struct SyncArgs {
    pub is_resource: bool,
    pub prefab_components: Option<Vec<ExprId>>,
    pub resource_interval: Option<ExprId>,
    pub resource_heartbeat: Option<ExprId>,
}

/// What a [`SyncArgs`] says.
#[verifier::ext_equal]
pub struct ArgsView {
    pub is_resource: bool,
    pub prefab_components: Option<Seq<ExprId>>,
    pub resource_interval: Option<ExprId>,
    pub resource_heartbeat: Option<ExprId>,
}

impl View for SyncArgs {
    type V = ArgsView;

    open spec fn view(&self) -> ArgsView {
        ArgsView {
            is_resource: self.is_resource,
            prefab_components: match self.prefab_components {
                Some(exprs) => Some(exprs@),
                None => None,
            },
            resource_interval: self.resource_interval,
            resource_heartbeat: self.resource_heartbeat,
        }
    }
}

impl ArgsView {
    /// The arguments of a bare `#[sync]`.
    pub open spec fn none() -> ArgsView {
        ArgsView {
            is_resource: false,
            prefab_components: None,
            resource_interval: None,
            resource_heartbeat: None,
        }
    }

    /// The arguments with one more: it takes the place of an earlier one of
    /// its kind.
    pub open spec fn with(self, arg: ArgView) -> ArgsView {
        match arg {
            ArgView::Resource => ArgsView { is_resource: true, ..self },
            ArgView::Prefab(exprs) => ArgsView { prefab_components: Some(exprs), ..self },
            ArgView::Interval(expr) => ArgsView { resource_interval: Some(expr), ..self },
            ArgView::Heartbeat(expr) => ArgsView { resource_heartbeat: Some(expr), ..self },
        }
    }

    /// Several arguments taken together.
    pub open spec fn of(args: Seq<ArgView>) -> ArgsView
        decreases args.len(),
    {
        if args.len() == 0 {
            ArgsView::none()
        } else {
            ArgsView::of(args.drop_last()).with(args.last())
        }
    }

    /// Whether a send interval or a heartbeat is given for what is no
    /// resource.
    pub open spec fn misplaced_timing(self) -> bool {
        !self.is_resource && (self.resource_interval is Some || self.resource_heartbeat is Some)
    }
}

/// Why arguments are refused. A position counts pieces.
#[derive(Clone, Copy, Debug, PartialEq, Eq, Structural)]
pub enum ArgError {
    /// An argument does not start with an identifier.
    ExpectedIdentifier(usize),
    /// The identifier names no argument.
    Unsupported(usize),
    /// `prefab` is not followed by parentheses.
    ExpectedParentheses(usize),
    /// `interval` or `heartbeat` is not followed by `=`.
    ExpectedEquals(usize),
    /// `=` is not followed by an expression.
    ExpectedExpression(usize),
    /// Two arguments are not separated by a comma.
    ExpectedComma(usize),
    /// The arguments end where `prefab` needs parentheses.
    EndBeforeParentheses,
    /// The arguments end where `interval` or `heartbeat` needs `=`.
    EndBeforeEquals,
    /// The arguments end where `=` needs an expression.
    EndBeforeExpression,
    /// A send interval or a heartbeat for what is no resource.
    MisplacedTiming,
}

/// What an identifier asks for.
#[derive(Clone, Copy, Debug, PartialEq, Eq, Structural)]
pub enum ArgKind {
    Resource,
    Prefab,
    Interval,
    Heartbeat,
}

/// The identifiers that start an argument.
pub open spec fn kind_of(word: Seq<char>) -> Option<ArgKind> {
    if word == "resource"@ {
        Some(ArgKind::Resource)
    } else if word == "prefab"@ {
        Some(ArgKind::Prefab)
    } else if word == "interval"@ {
        Some(ArgKind::Interval)
    } else if word == "heartbeat"@ {
        Some(ArgKind::Heartbeat)
    } else {
        None
    }
}

/// What an identifier asks for.
pub fn arg_kind(word: &str) -> (kind: Option<ArgKind>)
    ensures
        kind == kind_of(word@),
{
    if bytes::text_equal(word, "resource") {
        Some(ArgKind::Resource)
    } else if bytes::text_equal(word, "prefab") {
        Some(ArgKind::Prefab)
    } else if bytes::text_equal(word, "interval") {
        Some(ArgKind::Interval)
    } else if bytes::text_equal(word, "heartbeat") {
        Some(ArgKind::Heartbeat)
    } else {
        None
    }
}

/// The argument of the kind whose identifier stands just before `at`, and the
/// position after it.
pub open spec fn read_rest(
    pieces: Seq<PieceView>,
    kind: ArgKind,
    at: int,
) -> Result<(ArgView, int), ArgError> {
    match kind {
        ArgKind::Resource => Ok((ArgView::Resource, at)),
        ArgKind::Prefab => if at >= pieces.len() {
            Err(ArgError::EndBeforeParentheses)
        } else if pieces[at] is Group {
            Ok((ArgView::Prefab(pieces[at]->Group_0), at + 1))
        } else {
            Err(ArgError::ExpectedParentheses(at as usize))
        },
        _ => if at >= pieces.len() {
            Err(ArgError::EndBeforeEquals)
        } else if !(pieces[at] is Equals) {
            Err(ArgError::ExpectedEquals(at as usize))
        } else if at + 1 >= pieces.len() {
            Err(ArgError::EndBeforeExpression)
        } else if !(pieces[at + 1] is Value) {
            Err(ArgError::ExpectedExpression((at + 1) as usize))
        } else if kind == ArgKind::Interval {
            Ok((ArgView::Interval(pieces[at + 1]->Value_0), at + 2))
        } else {
            Ok((ArgView::Heartbeat(pieces[at + 1]->Value_0), at + 2))
        },
    }
}

/// The argument that starts at a position, and the position after it.
pub open spec fn read_arg(pieces: Seq<PieceView>, at: int) -> Result<(ArgView, int), ArgError> {
    if at < pieces.len() && pieces[at] is Word {
        match kind_of(pieces[at]->Word_0) {
            Some(kind) => read_rest(pieces, kind, at + 1),
            None => Err(ArgError::Unsupported(at as usize)),
        }
    } else {
        Err(ArgError::ExpectedIdentifier(at as usize))
    }
}

/// The arguments from a position on: separated by commas, with a comma allowed
/// after the last.
pub open spec fn read_args(pieces: Seq<PieceView>, at: int) -> Result<Seq<ArgView>, ArgError>
    decreases pieces.len() - at,
{
    if at >= pieces.len() {
        Ok(Seq::empty())
    } else {
        match read_arg(pieces, at) {
            Err(error) => Err(error),
            Ok((arg, next)) => if next >= pieces.len() {
                Ok(seq![arg])
            } else if !(pieces[next] is Comma) {
                Err(ArgError::ExpectedComma(next as usize))
            } else {
                match read_args(pieces, next + 1) {
                    Err(error) => Err(error),
                    Ok(rest) => Ok(seq![arg] + rest),
                }
            },
        }
    }
}

/// What the pieces between the brackets say.
pub open spec fn read_sync_args(pieces: Seq<PieceView>) -> Result<ArgsView, ArgError> {
    match read_args(pieces, 0) {
        Err(error) => Err(error),
        Ok(args) => if ArgsView::of(args).misplaced_timing() {
            Err(ArgError::MisplacedTiming)
        } else {
            Ok(ArgsView::of(args))
        },
    }
}

/// Copies a list of handles.
fn copy_exprs(exprs: &Vec<ExprId>) -> (copy: Vec<ExprId>)
    ensures
        copy@ == exprs@,
{
    let mut copy: Vec<ExprId> = Vec::new();
    let mut index: usize = 0;
    while index < exprs.len()
        invariant
            index <= exprs@.len(),
            copy@ == exprs@.take(index as int),
        decreases exprs@.len() - index,
    {
        copy.push(exprs[index]);
        assert(copy@ =~= exprs@.take(index + 1));
        index = index + 1;
    }
    assert(copy@ =~= exprs@);
    copy
}

/// Reads the argument of the kind whose identifier stands just before `at`.
fn parse_rest(pieces: &Vec<ArgPiece>, kind: ArgKind, at: usize) -> (result: Result<
    (SyncArg, usize),
    ArgError,
>)
    requires
        at <= pieces@.len(),
    ensures
        match (result, read_rest(piece_views(pieces@), kind, at as int)) {
            (Ok((arg, next)), Ok((arg_view, next_view))) => {
                arg@ == arg_view && next as int == next_view && at <= next <= pieces@.len()
            },
            (Err(error), Err(error_view)) => error == error_view,
            _ => false,
        },
{
    let ghost views = piece_views(pieces@);
    match kind {
        ArgKind::Resource => Ok((SyncArg::Resource, at)),
        ArgKind::Prefab => {
            if at >= pieces.len() {
                return Err(ArgError::EndBeforeParentheses);
            }
            assert(views[at as int] == pieces@[at as int]@);
            match &pieces[at] {
                ArgPiece::Group(exprs) => Ok((SyncArg::Prefab(copy_exprs(exprs)), at + 1)),
                _ => Err(ArgError::ExpectedParentheses(at)),
            }
        },
        _ => {
            if at >= pieces.len() {
                return Err(ArgError::EndBeforeEquals);
            }
            assert(views[at as int] == pieces@[at as int]@);
            match &pieces[at] {
                ArgPiece::Equals => {},
                _ => {
                    return Err(ArgError::ExpectedEquals(at));
                },
            }
            if at + 1 >= pieces.len() {
                return Err(ArgError::EndBeforeExpression);
            }
            assert(views[at + 1] == pieces@[at + 1]@);
            match &pieces[at + 1] {
                ArgPiece::Value(expr) => {
                    let arg = match kind {
                        ArgKind::Interval => SyncArg::Interval(*expr),
                        _ => SyncArg::Heartbeat(*expr),
                    };
                    Ok((arg, at + 2))
                },
                _ => Err(ArgError::ExpectedExpression(at + 1)),
            }
        },
    }
}

/// Reads the argument that starts at a position.
fn parse_arg(pieces: &Vec<ArgPiece>, at: usize) -> (result: Result<(SyncArg, usize), ArgError>)
    requires
        at < pieces@.len(),
    ensures
        match (result, read_arg(piece_views(pieces@), at as int)) {
            (Ok((arg, next)), Ok((arg_view, next_view))) => {
                arg@ == arg_view && next as int == next_view && at < next <= pieces@.len()
            },
            (Err(error), Err(error_view)) => error == error_view,
            _ => false,
        },
{
    assert(piece_views(pieces@)[at as int] == pieces@[at as int]@);
    assert(at < pieces.len());
    match &pieces[at] {
        ArgPiece::Word(word) => match arg_kind(word.as_str()) {
            Some(kind) => parse_rest(pieces, kind, at + 1),
            None => Err(ArgError::Unsupported(at)),
        },
        _ => Err(ArgError::ExpectedIdentifier(at)),
    }
}

/// Reads all arguments.
fn parse_args(pieces: &Vec<ArgPiece>) -> (result: Result<Vec<SyncArg>, ArgError>)
    ensures
        match (result, read_args(piece_views(pieces@), 0)) {
            (Ok(args), Ok(views)) => arg_views(args@) == views,
            (Err(error), Err(error_view)) => error == error_view,
            _ => false,
        },
{
    let ghost views = piece_views(pieces@);
    let ghost whole = read_args(views, 0);
    let mut args: Vec<SyncArg> = Vec::new();
    let mut at: usize = 0;
    assert(arg_views(args@) =~= Seq::<ArgView>::empty());
    assert(whole is Ok ==> whole->Ok_0 =~= Seq::<ArgView>::empty() + whole->Ok_0);
    while at < pieces.len()
        invariant
            at <= pieces@.len(),
            views == piece_views(pieces@),
            whole == read_args(views, 0),
            match read_args(views, at as int) {
                Ok(rest) => whole == Ok::<Seq<ArgView>, ArgError>(arg_views(args@) + rest),
                Err(error) => whole == Err::<Seq<ArgView>, ArgError>(error),
            },
        decreases pieces@.len() - at,
    {
        let ghost before = args@;
        match parse_arg(pieces, at) {
            Err(error) => {
                return Err(error);
            },
            Ok((arg, next)) => {
                args.push(arg);
                assert(arg_views(args@) =~= arg_views(before).push(arg@));
                assert(arg_views(before) + seq![arg@] =~= arg_views(args@));
                if next >= pieces.len() {
                    return Ok(args);
                }
                assert(views[next as int] == pieces@[next as int]@);
                match &pieces[next] {
                    ArgPiece::Comma => {},
                    _ => {
                        return Err(ArgError::ExpectedComma(next));
                    },
                }
                at = next + 1;
                proof {
                    let rest = read_args(views, at as int)->Ok_0;
                    assert(arg_views(before) + (seq![arg@] + rest) =~= arg_views(args@) + rest);
                }
            },
        }
    }
    assert(arg_views(args@) + Seq::<ArgView>::empty() =~= arg_views(args@));
    Ok(args)
}

impl SyncArgs {
    /// Takes arguments together.
    pub fn collect(args: Vec<SyncArg>) -> (result: Result<SyncArgs, ArgError>)
        ensures
            match result {
                Ok(collected) => {
                    &&& collected@ == ArgsView::of(arg_views(args@))
                    &&& !collected@.misplaced_timing()
                },
                Err(error) => {
                    &&& error == ArgError::MisplacedTiming
                    &&& ArgsView::of(arg_views(args@)).misplaced_timing()
                },
            },
    {
        let ghost views = arg_views(args@);
        let mut collected = SyncArgs {
            is_resource: false,
            prefab_components: None,
            resource_interval: None,
            resource_heartbeat: None,
        };
        assert(views.take(0) =~= Seq::<ArgView>::empty());
        for arg in iter: args
            invariant
                iter.seq() == args@,
                views == arg_views(args@),
                collected@ == ArgsView::of(views.take(iter.index() as int)),
        {
            let ghost done = iter.index() as int;
            assert(views.take(done + 1).drop_last() =~= views.take(done));
            assert(views.take(done + 1).last() == arg@);
            match arg {
                SyncArg::Resource => {
                    collected.is_resource = true;
                },
                SyncArg::Prefab(components) => {
                    collected.prefab_components = Some(components);
                },
                SyncArg::Interval(seconds) => {
                    collected.resource_interval = Some(seconds);
                },
                SyncArg::Heartbeat(seconds) => {
                    collected.resource_heartbeat = Some(seconds);
                },
            }
        }
        assert(views.take(views.len() as int) =~= views);
        if !collected.is_resource && (collected.resource_interval.is_some()
            || collected.resource_heartbeat.is_some()) {
            return Err(ArgError::MisplacedTiming);
        }
        Ok(collected)
    }
}

/// Reads the arguments of `#[sync(...)]` from the pieces between the brackets.
pub fn parse_sync_args(pieces: &Vec<ArgPiece>) -> (result: Result<SyncArgs, ArgError>)
    ensures
        match (result, read_sync_args(piece_views(pieces@))) {
            (Ok(args), Ok(view)) => args@ == view,
            (Err(error), Err(error_view)) => error == error_view,
            _ => false,
        },
{
    match parse_args(pieces) {
        Ok(args) => SyncArgs::collect(args),
        Err(error) => Err(error),
    }
}

impl ArgError {
    /// What the compiler shows for the error.
    pub fn message(&self) -> (text: &'static str)
        ensures
            text@ == match *self {
                ArgError::ExpectedIdentifier(_) => "expected identifier"@,
                ArgError::Unsupported(_) => "unsupported #[sync(...)] argument"@,
                ArgError::ExpectedParentheses(_) => "expected parentheses"@,
                ArgError::ExpectedEquals(_) => "expected `=`"@,
                ArgError::ExpectedExpression(_) => "expected an expression"@,
                ArgError::ExpectedComma(_) => "expected `,`"@,
                ArgError::EndBeforeParentheses => {
                    "unexpected end of input, expected parentheses"@
                },
                ArgError::EndBeforeEquals => "unexpected end of input, expected `=`"@,
                ArgError::EndBeforeExpression => {
                    "unexpected end of input, expected an expression"@
                },
                ArgError::MisplacedTiming => {
                    "`interval` and `heartbeat` are only supported with #[sync(resource)]"@
                },
            },
    {
        match self {
            ArgError::ExpectedIdentifier(_) => "expected identifier",
            ArgError::Unsupported(_) => "unsupported #[sync(...)] argument",
            ArgError::ExpectedParentheses(_) => "expected parentheses",
            ArgError::ExpectedEquals(_) => "expected `=`",
            ArgError::ExpectedExpression(_) => "expected an expression",
            ArgError::ExpectedComma(_) => "expected `,`",
            ArgError::EndBeforeParentheses => "unexpected end of input, expected parentheses",
            ArgError::EndBeforeEquals => "unexpected end of input, expected `=`",
            ArgError::EndBeforeExpression => "unexpected end of input, expected an expression",
            ArgError::MisplacedTiming => {
                "`interval` and `heartbeat` are only supported with #[sync(resource)]"
            },
        }
    }
}

/// A send interval or a heartbeat is accepted for resources only.
pub proof fn law_timing_is_for_resources(pieces: Seq<PieceView>)
    ensures
        match read_sync_args(pieces) {
            Ok(args) => args.resource_interval is Some || args.resource_heartbeat is Some
                ==> args.is_resource,
            Err(_) => true,
        },
{
}

/// Of several arguments of one kind the last counts.
pub proof fn law_last_argument_counts(args: Seq<ArgView>, expr: ExprId, exprs: Seq<ExprId>)
    ensures
        ArgsView::of(args.push(ArgView::Interval(expr))).resource_interval == Some(expr),
        ArgsView::of(args.push(ArgView::Heartbeat(expr))).resource_heartbeat == Some(expr),
        ArgsView::of(args.push(ArgView::Prefab(exprs))).prefab_components == Some(exprs),
        ArgsView::of(args.push(ArgView::Resource)).is_resource,
{
}

/// A bare attribute sets nothing. Each further argument sets what its kind is
/// for and leaves the settings of the other kinds as they are.
pub proof fn law_each_argument_sets_its_own_field(
    args: Seq<ArgView>,
    exprs: Seq<ExprId>,
    expr: ExprId,
)
    ensures
        ({
            let bare = ArgsView::of(Seq::empty());
            let before = ArgsView::of(args);
            let resource = ArgsView::of(args.push(ArgView::Resource));
            let prefab = ArgsView::of(args.push(ArgView::Prefab(exprs)));
            let interval = ArgsView::of(args.push(ArgView::Interval(expr)));
            let heartbeat = ArgsView::of(args.push(ArgView::Heartbeat(expr)));
            &&& !bare.is_resource
            &&& bare.prefab_components is None
            &&& bare.resource_interval is None
            &&& bare.resource_heartbeat is None
            &&& resource.is_resource
            &&& resource.prefab_components == before.prefab_components
            &&& resource.resource_interval == before.resource_interval
            &&& resource.resource_heartbeat == before.resource_heartbeat
            &&& prefab.is_resource == before.is_resource
            &&& prefab.prefab_components == Some(exprs)
            &&& prefab.resource_interval == before.resource_interval
            &&& prefab.resource_heartbeat == before.resource_heartbeat
            &&& interval.is_resource == before.is_resource
            &&& interval.prefab_components == before.prefab_components
            &&& interval.resource_interval == Some(expr)
            &&& interval.resource_heartbeat == before.resource_heartbeat
            &&& heartbeat.is_resource == before.is_resource
            &&& heartbeat.prefab_components == before.prefab_components
            &&& heartbeat.resource_interval == before.resource_interval
            &&& heartbeat.resource_heartbeat == Some(expr)
        }),
{
    assert(args.push(ArgView::Resource).drop_last() =~= args);
    assert(args.push(ArgView::Prefab(exprs)).drop_last() =~= args);
    assert(args.push(ArgView::Interval(expr)).drop_last() =~= args);
    assert(args.push(ArgView::Heartbeat(expr)).drop_last() =~= args);
}

/// The arguments are refused for their timing exactly where an interval or a
/// heartbeat is given without `resource`.
pub proof fn law_timing_is_refused_without_resource(args: ArgsView, pieces: Seq<PieceView>)
    ensures
        args.misplaced_timing() == (!args.is_resource && (args.resource_interval is Some
            || args.resource_heartbeat is Some)),
        match read_args(pieces, 0) {
            Ok(list) => {
                let all = ArgsView::of(list);
                if !all.is_resource && (all.resource_interval is Some
                    || all.resource_heartbeat is Some) {
                    read_sync_args(pieces) == Err::<ArgsView, ArgError>(ArgError::MisplacedTiming)
                } else {
                    read_sync_args(pieces) == Ok::<ArgsView, ArgError>(all)
                }
            },
            Err(error) => read_sync_args(pieces) == Err::<ArgsView, ArgError>(error),
        },
{
}

/// Four identifiers start an argument and no other does.
pub proof fn law_four_identifiers_start_an_argument(word: Seq<char>)
    ensures
        kind_of(word) == Some(ArgKind::Resource) <==> word == "resource"@,
        kind_of(word) == Some(ArgKind::Prefab) <==> word == "prefab"@,
        kind_of(word) == Some(ArgKind::Interval) <==> word == "interval"@,
        kind_of(word) == Some(ArgKind::Heartbeat) <==> word == "heartbeat"@,
{
    reveal_strlit("resource");
    reveal_strlit("prefab");
    reveal_strlit("interval");
    reveal_strlit("heartbeat");
    assert("resource"@.len() == 8);
    assert("prefab"@.len() == 6);
    assert("interval"@[0] == 'i');
    assert("resource"@[0] == 'r');
    assert("heartbeat"@.len() == 9);
}

/// How one argument is read, and why it is refused. `at` is where it starts.
pub proof fn law_arguments_are_read_by_their_identifier(pieces: Seq<PieceView>, at: int)
    requires
        0 <= at < pieces.len() <= usize::MAX,
    ensures
        ({
            let read = read_arg(pieces, at);
            let count = pieces.len();
            match pieces[at] {
                PieceView::Word(word) => {
                    &&& word == "resource"@ ==> read == Ok::<(ArgView, int), ArgError>(
                        (ArgView::Resource, at + 1),
                    )
                    &&& word == "prefab"@ && at + 1 >= count ==> read == Err::<
                        (ArgView, int),
                        ArgError,
                    >(ArgError::EndBeforeParentheses)
                    &&& word == "prefab"@ && at + 1 < count ==> match pieces[at + 1] {
                        PieceView::Group(exprs) => read == Ok::<(ArgView, int), ArgError>(
                            (ArgView::Prefab(exprs), at + 2),
                        ),
                        _ => read == Err::<(ArgView, int), ArgError>(
                            ArgError::ExpectedParentheses((at + 1) as usize),
                        ),
                    }
                    &&& (word == "interval"@ || word == "heartbeat"@) && at + 1 >= count ==> read
                        == Err::<(ArgView, int), ArgError>(ArgError::EndBeforeEquals)
                    &&& (word == "interval"@ || word == "heartbeat"@) && at + 1 < count && !(
                    pieces[at + 1] is Equals) ==> read == Err::<(ArgView, int), ArgError>(
                        ArgError::ExpectedEquals((at + 1) as usize),
                    )
                    &&& (word == "interval"@ || word == "heartbeat"@) && at + 2 == count
                        && pieces[at + 1] is Equals ==> read == Err::<(ArgView, int), ArgError>(
                        ArgError::EndBeforeExpression,
                    )
                    &&& (word == "interval"@ || word == "heartbeat"@) && at + 2 < count
                        && pieces[at + 1] is Equals ==> match pieces[at + 2] {
                        PieceView::Value(expr) => {
                            &&& word == "interval"@ ==> read == Ok::<(ArgView, int), ArgError>(
                                (ArgView::Interval(expr), at + 3),
                            )
                            &&& word == "heartbeat"@ ==> read == Ok::<(ArgView, int), ArgError>(
                                (ArgView::Heartbeat(expr), at + 3),
                            )
                        },
                        _ => read == Err::<(ArgView, int), ArgError>(
                            ArgError::ExpectedExpression((at + 2) as usize),
                        ),
                    }
                    &&& word != "resource"@ && word != "prefab"@ && word != "interval"@ && word
                        != "heartbeat"@ ==> read == Err::<(ArgView, int), ArgError>(
                        ArgError::Unsupported(at as usize),
                    )
                },
                _ => read == Err::<(ArgView, int), ArgError>(
                    ArgError::ExpectedIdentifier(at as usize),
                ),
            }
        }),
{
    if let PieceView::Word(word) = pieces[at] {
        law_four_identifiers_start_an_argument(word);
        law_four_identifiers_start_an_argument("resource"@);
        law_four_identifiers_start_an_argument("prefab"@);
        law_four_identifiers_start_an_argument("interval"@);
        law_four_identifiers_start_an_argument("heartbeat"@);
    }
}

/// Arguments are read one after the other. Between two of them stands a comma,
/// and one may stand behind the last; the first thing wrong is what is reported.
pub proof fn law_arguments_are_separated_by_commas(pieces: Seq<PieceView>, at: int)
    requires
        0 <= at < pieces.len() <= usize::MAX,
    ensures
        read_args(pieces, pieces.len() as int) == Ok::<Seq<ArgView>, ArgError>(Seq::empty()),
        match read_arg(pieces, at) {
            Err(error) => read_args(pieces, at) == Err::<Seq<ArgView>, ArgError>(error),
            Ok((arg, next)) => {
                &&& at < next <= pieces.len()
                &&& next == pieces.len() ==> read_args(pieces, at) == Ok::<
                    Seq<ArgView>,
                    ArgError,
                >(seq![arg])
                &&& next < pieces.len() && !(pieces[next] is Comma) ==> read_args(pieces, at)
                    == Err::<Seq<ArgView>, ArgError>(ArgError::ExpectedComma(next as usize))
                &&& next < pieces.len() && pieces[next] is Comma ==> match read_args(
                    pieces,
                    next + 1,
                ) {
                    Ok(rest) => read_args(pieces, at) == Ok::<Seq<ArgView>, ArgError>(
                        seq![arg] + rest,
                    ),
                    Err(error) => read_args(pieces, at) == Err::<Seq<ArgView>, ArgError>(error),
                }
            },
        },
{
}

/// Pieces, arguments and their lists say what they hold.
pub proof fn law_pieces_and_arguments_say_what_they_hold(
    pieces: Seq<ArgPiece>,
    args: Seq<SyncArg>,
    all: SyncArgs,
)
    ensures
        piece_views(pieces).len() == pieces.len(),
        arg_views(args).len() == args.len(),
        forall|i: int|
            0 <= i < pieces.len() ==> #[trigger] piece_views(pieces)[i] == match pieces[i] {
                ArgPiece::Word(word) => PieceView::Word(word@),
                ArgPiece::Equals => PieceView::Equals,
                ArgPiece::Comma => PieceView::Comma,
                ArgPiece::Group(exprs) => PieceView::Group(exprs@),
                ArgPiece::Value(expr) => PieceView::Value(expr),
                ArgPiece::Other => PieceView::Other,
            },
        forall|i: int|
            0 <= i < args.len() ==> #[trigger] arg_views(args)[i] == match args[i] {
                SyncArg::Resource => ArgView::Resource,
                SyncArg::Prefab(exprs) => ArgView::Prefab(exprs@),
                SyncArg::Interval(expr) => ArgView::Interval(expr),
                SyncArg::Heartbeat(expr) => ArgView::Heartbeat(expr),
            },
        all@.is_resource == all.is_resource,
        all.prefab_components is None ==> all@.prefab_components is None,
        all.prefab_components is Some ==> all@.prefab_components == Some(all.prefab_components->0@),
        all@.resource_interval == all.resource_interval,
        all@.resource_heartbeat == all.resource_heartbeat,
{
}

} // verus!
