//! The dining facilities and their codes.
//!
//! The page of facilities lists them in groups. Each facility is read in two
//! steps: its parts are taken out of the page as plain text
//! ([`Mensa::read`]), and the facility is made of those parts
//! ([`Mensa::from_parts`]).

use vstd::prelude::*;
use crate::error::{missing, within, Error, ErrorModel, NumberError};
use crate::html::{
    attr, element_attr, element_matches, element_text, first_inner_html, first_inner_html_below,
    first_match_below, page_matches, select, select_first, select_in_page, selector, selector_of,
    text,
};
use crate::pattern::{captures, compiled, expression, first_match, group, group_text};
use crate::text::{
    after, contains_folded, has_folded, join_trimmed, joined, number_text, number_to_text,
    parse_unsigned, trim, trimmed, unsigned_of,
};
use crate::utility::{accepts, lemma_try_map_prefix_fails, try_map};
use crate::{
    all_named, answers_all, decides_all, filtered, heading_of, lemma_filtered_agree,
    lemma_filtered_deep, no_group_empty, Group, GroupModel, MensaCode, Response,
};

verus! {

/// A dining facility.
#[derive(Debug, Clone, PartialEq, Eq)]
pub struct Mensa {
    pub code: MensaCode,
    pub name: String,
    pub address: String,
}

/// The mathematical value of a [`Mensa`].
pub struct MensaModel {
    pub code: MensaCode,
    pub name: Seq<char>,
    pub address: Seq<char>,
}

impl View for Mensa {
    type V = MensaModel;

    open spec fn view(&self) -> MensaModel {
        MensaModel { code: self.code, name: self.name@, address: self.address@ }
    }
}

/// What the address card of a facility holds, as text.
#[derive(Debug, Clone, PartialEq, Eq)]
pub struct CardParts {
    /// The text of the element that holds the name.
    pub name: Option<String>,
    /// The pieces of text of the card, in page order.
    pub texts: Vec<String>,
}

/// What the page of facilities holds of one facility, as text.
#[derive(Debug, Clone, PartialEq, Eq)]
pub struct MensaParts {
    /// The groups that the call in the click handler matches: the code of
    /// the facility is group 1.
    pub call: Option<Vec<Option<String>>>,
    /// The address card.
    pub card: Option<CardParts>,
}

/// The mathematical value of [`CardParts`].
pub struct CardPartsModel {
    pub name: Option<Seq<char>>,
    pub texts: Seq<Seq<char>>,
}

/// The mathematical value of [`MensaParts`].
pub struct MensaPartsModel {
    pub call: Option<Seq<Option<Seq<char>>>>,
    pub card: Option<CardPartsModel>,
}

impl View for CardParts {
    type V = CardPartsModel;

    open spec fn view(&self) -> CardPartsModel {
        CardPartsModel { name: self.name.deep_view(), texts: self.texts.deep_view() }
    }
}

impl View for MensaParts {
    type V = MensaPartsModel;

    open spec fn view(&self) -> MensaPartsModel {
        MensaPartsModel {
            call: self.call.deep_view(),
            card: match self.card {
                Some(card) => Some(card@),
                None => None,
            },
        }
    }
}

/// What is reported of a facility without an address card.
pub const ADDRESS_FIELD: &'static str = "Mensa::address";

/// What is reported of a facility without a name.
pub const NAME_FIELD: &'static str = "Mensa::name";

/// What is reported of a group of facilities without a heading.
pub const GROUP_NAME_FIELD: &'static str = "Group<Mensa>::name";

/// What is reported where the code of a facility cannot be told.
pub const CODE_FIELD: &'static str = "Mensa::code";

/// The text of [`CODE_FIELD`].
pub open spec fn code_field() -> Seq<char> {
    CODE_FIELD@
}

/// The code that the call in a click handler names: the number that group 1
/// of its match writes.
pub open spec fn code_of_call(call: Option<Seq<Option<Seq<char>>>>) -> Result<
    MensaCode,
    ErrorModel,
> {
    match call {
        None => Err(missing(code_field())),
        Some(groups) => match group_text(groups, 1) {
            None => Err(missing(code_field())),
            Some(digits) => match unsigned_of(digits, u16::MAX as nat) {
                Err(error) => Err(within(code_field(), ErrorModel::Number(error))),
                Ok(code) => Ok(MensaCode(code as u16)),
            },
        },
    }
}

/// The text that separates the lines of an address.
pub open spec fn line_separator() -> Seq<char> {
    ", "@
}

/// The address that the pieces of text of an address card write: all but the
/// first two, each without white space at its ends, with commas between them.
pub open spec fn address_of(texts: Seq<Seq<char>>) -> Seq<char> {
    joined(after(texts, 2).map_values(|part: Seq<char>| trimmed(part)), line_separator())
}

/// The facility that `parts` describe. The click handler must name the
/// code, and there must be an address card with a name.
pub open spec fn mensa_of_parts(parts: MensaPartsModel) -> Result<MensaModel, ErrorModel> {
    match code_of_call(parts.call) {
        Err(error) => Err(error),
        Ok(code) => match parts.card {
            None => Err(missing(ADDRESS_FIELD@)),
            Some(card) => match card.name {
                None => Err(missing(NAME_FIELD@)),
                Some(name) => Ok(MensaModel { code, name, address: address_of(card.texts) }),
            },
        },
    }
}

impl MensaCode {
    /// The code that `text` writes.
    pub fn parse(text: &str) -> (code: Result<MensaCode, NumberError>)
        ensures
            match code {
                Ok(code) => unsigned_of(text@, u16::MAX as nat) == Ok::<nat, NumberError>(
                    code.0 as nat,
                ),
                Err(error) => unsigned_of(text@, u16::MAX as nat) == Err::<nat, NumberError>(error),
            },
    {
        match parse_unsigned(text, 0xffff) {
            Ok(code) => Ok(MensaCode(code as u16)),
            Err(error) => Err(error),
        }
    }

    /// The digits of the code.
    pub fn to_text(&self) -> (text: String)
        ensures
            text@ == number_text(self.0 as nat),
    {
        number_to_text(self.0 as u64)
    }

    /// The code that the call in a click handler names.
    pub fn from_call(call: &Option<Vec<Option<String>>>) -> (code: Result<MensaCode, Error>)
        ensures
            match code {
                Ok(code) => code_of_call(call.deep_view()) == Ok::<MensaCode, ErrorModel>(code),
                Err(error) => code_of_call(call.deep_view()) == Err::<MensaCode, ErrorModel>(
                    error@,
                ),
            },
    {
        let groups = match call {
            Some(groups) => groups,
            None => {
                return Err(Error::missing(CODE_FIELD));
            },
        };
        let digits = match group(groups, 1) {
            Some(digits) => digits,
            None => {
                return Err(Error::missing(CODE_FIELD));
            },
        };
        match MensaCode::parse(digits.as_str()) {
            Ok(code) => Ok(code),
            Err(error) => Err(Error::within(CODE_FIELD, Error::Number(error))),
        }
    }
}

impl core::str::FromStr for MensaCode {
    type Err = NumberError;

    /// The code that `text` writes.
    fn from_str(text: &str) -> (code: Result<MensaCode, NumberError>)
        ensures
            match code {
                Ok(code) => unsigned_of(text@, u16::MAX as nat) == Ok::<nat, NumberError>(
                    code.0 as nat,
                ),
                Err(error) => unsigned_of(text@, u16::MAX as nat) == Err::<nat, NumberError>(error),
            },
    {
        MensaCode::parse(text)
    }
}

impl Mensa {
    /// The facility that `parts` describe.
    pub fn from_parts(parts: &MensaParts) -> (mensa: Result<Mensa, Error>)
        ensures
            match mensa {
                Ok(mensa) => mensa_of_parts(parts@) == Ok::<MensaModel, ErrorModel>(mensa@),
                Err(error) => mensa_of_parts(parts@) == Err::<MensaModel, ErrorModel>(error@),
            },
    {
        let code = MensaCode::from_call(&parts.call)?;
        let card = match &parts.card {
            Some(card) => card,
            None => {
                return Err(Error::missing(ADDRESS_FIELD));
            },
        };
        let name = match &card.name {
            Some(name) => name.clone(),
            None => {
                return Err(Error::missing(NAME_FIELD));
            },
        };
        let address = join_trimmed(&card.texts, 2, ", ");
        Ok(Mensa { code, name, address })
    }
}

/// The expression that matches the call in a click handler: group 1 is the
/// number between the quotes.
pub const CALL_RULE: &'static str = "xhrLoad\\('(\\d+)'\\)";

/// The text of [`CALL_RULE`].
pub open spec fn call_rule() -> Seq<char> {
    CALL_RULE@
}

/// The selector of the address card of a facility.
pub const CARD_RULE: &'static str = ".addrcard";

/// The text of [`CARD_RULE`].
pub open spec fn card_rule() -> Seq<char> {
    CARD_RULE@
}

/// The selector of the name on an address card.
pub const CARD_NAME_RULE: &'static str = "a.dummy div";

/// The text of [`CARD_NAME_RULE`].
pub open spec fn card_name_rule() -> Seq<char> {
    CARD_NAME_RULE@
}

/// The groups that the call rule matches in the click handler, if there is
/// a handler and it holds the call.
pub open spec fn call_groups(handler: Option<Seq<char>>, call: regex::Regex) -> Option<
    Seq<Option<Seq<char>>>,
> {
    match handler {
        Some(text) => first_match(call, text),
        None => None,
    }
}

/// What the address card `card` holds.
pub open spec fn card_parts_of(
    card: Option<scraper::ElementRef<'static>>,
    name: scraper::Selector,
) -> Option<CardPartsModel> {
    match card {
        Some(card) => Some(
            CardPartsModel { name: first_inner_html_below(card, name), texts: element_text(card) },
        ),
        None => None,
    }
}

/// The parts of the facility that `element` holds. Only a rule that `scraper`
/// or `regex` does not accept makes this fail.
pub open spec fn mensa_parts_of(element: scraper::ElementRef) -> Result<
    MensaPartsModel,
    ErrorModel,
> {
    match selector_of(card_rule()) {
        None => Err(missing(card_rule())),
        Some(card) => match selector_of(card_name_rule()) {
            None => Err(missing(card_name_rule())),
            Some(name) => match compiled(call_rule()) {
                None => Err(missing(call_rule())),
                Some(call) => Ok(
                    MensaPartsModel {
                        call: call_groups(element_attr(element, "onclick"@), call),
                        card: card_parts_of(first_match_below(element, card), name),
                    },
                ),
            },
        },
    }
}

/// The facility that `element` holds.
pub open spec fn mensa_of(element: scraper::ElementRef) -> Result<MensaModel, ErrorModel> {
    match mensa_parts_of(element) {
        Ok(parts) => mensa_of_parts(parts),
        Err(error) => Err(error),
    }
}

/// The code that the click handler `handler` names: that of the call that
/// the call rule finds in it.
pub open spec fn code_of_handler(handler: Seq<char>) -> Result<MensaCode, ErrorModel> {
    match compiled(call_rule()) {
        None => Err(missing(call_rule())),
        Some(call) => code_of_call(first_match(call, handler)),
    }
}

impl MensaCode {
    /// The code that the click handler `handler` names.
    pub fn from_handler(handler: &str) -> (code: Result<MensaCode, Error>)
        ensures
            match code {
                Ok(code) => code_of_handler(handler@) == Ok::<MensaCode, ErrorModel>(code),
                Err(error) => code_of_handler(handler@) == Err::<MensaCode, ErrorModel>(error@),
            },
    {
        let call = expression(CALL_RULE)?;
        MensaCode::from_call(&captures(&call, handler))
    }
}

impl Mensa {
    /// Takes the parts of a facility out of the element that holds it.
    pub fn read(element: scraper::ElementRef) -> (parts: Result<MensaParts, Error>)
        ensures
            match parts {
                Ok(parts) => mensa_parts_of(element) == Ok::<MensaPartsModel, ErrorModel>(parts@),
                Err(error) => mensa_parts_of(element) == Err::<MensaPartsModel, ErrorModel>(
                    error@,
                ),
            },
    {
        let card = selector(CARD_RULE)?;
        let name = selector(CARD_NAME_RULE)?;
        let call = expression(CALL_RULE)?;
        let groups = match attr(element, "onclick") {
            Some(handler) => captures(&call, handler.as_str()),
            None => None,
        };
        let held = match select_first(element, &card) {
            Some(held) => Some(
                CardParts { name: first_inner_html(held, &name), texts: text(held) },
            ),
            None => None,
        };
        Ok(MensaParts { call: groups, card: held })
    }

    /// The facility that `element` holds.
    pub fn try_from(element: scraper::ElementRef) -> (mensa: Result<Mensa, Error>)
        ensures
            match mensa {
                Ok(mensa) => mensa_of(element) == Ok::<MensaModel, ErrorModel>(mensa@),
                Err(error) => mensa_of(element) == Err::<MensaModel, ErrorModel>(error@),
            },
    {
        let parts = Mensa::read(element)?;
        Mensa::from_parts(&parts)
    }
}

/// The selector of the heading of a group of facilities.
pub const HEADING_RULE: &'static str = "h4";

/// The text of [`HEADING_RULE`].
pub open spec fn heading_rule() -> Seq<char> {
    HEADING_RULE@
}

/// The selector of the facilities of a group.
pub const ROW_RULE: &'static str = ".row.row-top-percent-1.ptr[onclick]";

/// The text of [`ROW_RULE`].
pub open spec fn row_rule() -> Seq<char> {
    ROW_RULE@
}

/// The selector of the groups of the page of facilities.
pub const GROUP_RULE: &'static str = "#itemsHochschulen .container-fluid";

/// The text of [`GROUP_RULE`].
pub open spec fn group_rule() -> Seq<char> {
    GROUP_RULE@
}

/// The heading that the text `text` of a heading element gives a group of
/// facilities: the text without white space at its ends, unless there is
/// none or nothing is left of it.
pub open spec fn trimmed_heading(text: Option<Seq<char>>) -> Option<Seq<char>> {
    match text {
        Some(name) => heading_of(Some(trimmed(name))),
        None => None,
    }
}

/// The group of facilities that `element` holds: its heading, without white
/// space at its ends, and its facilities in page order. A group without a
/// heading fails, an empty heading counting as none, and so does a group
/// with a facility that fails.
pub open spec fn mensa_group_of(element: scraper::ElementRef) -> Result<
    GroupModel<MensaModel>,
    ErrorModel,
> {
    match selector_of(heading_rule()) {
        None => Err(missing(heading_rule())),
        Some(heading) => match selector_of(row_rule()) {
            None => Err(missing(row_rule())),
            Some(row) => match trimmed_heading(first_inner_html_below(element, heading)) {
                None => Err(missing(GROUP_NAME_FIELD@)),
                Some(name) => match try_map(
                    element_matches(element, row),
                    |held: scraper::ElementRef| mensa_of(held),
                ) {
                    Err(error) => Err(error),
                    Ok(items) => Ok(GroupModel { name, items }),
                },
            },
        },
    }
}

/// The facilities that `page` holds: its groups in page order, without those
/// that list no facility. A page with a group that fails fails.
pub open spec fn codes_of(page: scraper::Html) -> Result<Seq<GroupModel<MensaModel>>, ErrorModel> {
    match selector_of(group_rule()) {
        None => Err(missing(group_rule())),
        Some(group) => match try_map(
            page_matches(page, group),
            |held: scraper::ElementRef| mensa_group_of(held),
        ) {
            Err(error) => Err(error),
            Ok(groups) => Ok(groups.filter(|group: GroupModel<MensaModel>| group.items.len() > 0)),
        },
    }
}

impl Group<Mensa> {
    /// The group of facilities that `element` holds.
    #[verifier::loop_isolation(false)]
    pub fn try_from(element: scraper::ElementRef) -> (group: Result<Group<Mensa>, Error>)
        ensures
            match group {
                Ok(group) => mensa_group_of(element) == Ok::<GroupModel<MensaModel>, ErrorModel>(
                    group.deep(),
                ) && group@.name.len() >= 1,
                Err(error) => mensa_group_of(element) == Err::<
                    GroupModel<MensaModel>,
                    ErrorModel,
                >(error@),
            },
    {
        let heading = selector(HEADING_RULE)?;
        let row = selector(ROW_RULE)?;
        let name = match first_inner_html(element, &heading) {
            Some(name) => {
                let name = trim(name.as_str());
                if name.is_empty() {
                    return Err(Error::missing(GROUP_NAME_FIELD));
                }
                name.to_owned()
            },
            None => {
                return Err(Error::missing(GROUP_NAME_FIELD));
            },
        };
        let found = select(element, &row);
        let ghost read = |held: scraper::ElementRef| mensa_of(held);
        let mut items: Vec<Mensa> = Vec::new();
        let mut i: usize = 0;
        assert(found@.take(0) =~= Seq::empty());
        assert(items@.map_values(|item: Mensa| item@) =~= Seq::empty());
        while i < found.len()
            invariant
                i <= found@.len(),
                try_map(found@.take(i as int), read) == Ok::<Seq<MensaModel>, ErrorModel>(
                    items@.map_values(|item: Mensa| item@),
                ),
            decreases found@.len() - i,
        {
            let ghost before = items@.map_values(|item: Mensa| item@);
            proof {
                assert(found@.take(i + 1).drop_last() =~= found@.take(i as int));
            }
            match Mensa::try_from(found[i]) {
                Ok(item) => {
                    items.push(item);
                    assert(items@.map_values(|item: Mensa| item@) =~= before.push(item@));
                },
                Err(error) => {
                    proof {
                        lemma_try_map_prefix_fails(found@, read, i + 1);
                    }
                    return Err(error);
                },
            }
            i += 1;
        }
        assert(found@.take(i as int) =~= found@);
        Ok(Group { name, items })
    }
}

impl Response<Mensa> {
    /// The facilities that `page` holds.
    #[verifier::loop_isolation(false)]
    pub fn try_from(page: scraper::Html) -> (codes: Result<Response<Mensa>, Error>)
        ensures
            match codes {
                Ok(codes) => codes_of(page) == Ok::<Seq<GroupModel<MensaModel>>, ErrorModel>(
                    codes.deep(),
                ) && no_group_empty(codes@) && all_named(codes@),
                Err(error) => codes_of(page) == Err::<Seq<GroupModel<MensaModel>>, ErrorModel>(
                    error@,
                ),
            },
    {
        let group = selector(GROUP_RULE)?;
        let found = select_in_page(&page, &group);
        let ghost read = |held: scraper::ElementRef| mensa_group_of(held);
        let ghost full = |group: GroupModel<MensaModel>| group.items.len() > 0;
        let ghost all: Seq<GroupModel<MensaModel>> = Seq::empty();
        let mut groups: Vec<Group<Mensa>> = Vec::new();
        let mut i: usize = 0;
        proof {
            assert(found@.take(0) =~= Seq::empty());
            reveal(Seq::filter);
            assert(groups@.map_values(|group: Group<Mensa>| group.deep()) =~= all.filter(full));
        }
        while i < found.len()
            invariant
                i <= found@.len(),
                try_map(found@.take(i as int), read) == Ok::<
                    Seq<GroupModel<MensaModel>>,
                    ErrorModel,
                >(all),
                groups@.map_values(|group: Group<Mensa>| group.deep()) == all.filter(full),
                forall|g: int| 0 <= g < groups@.len() ==> (#[trigger] groups@[g]).items@.len() >= 1,
                forall|g: int| 0 <= g < groups@.len() ==> (#[trigger] groups@[g]).name@.len() >= 1,
            decreases found@.len() - i,
        {
            let ghost before = groups@.map_values(|group: Group<Mensa>| group.deep());
            proof {
                assert(found@.take(i + 1).drop_last() =~= found@.take(i as int));
            }
            match Group::<Mensa>::try_from(found[i]) {
                Ok(group) => {
                    proof {
                        all.lemma_filter_push(group.deep(), full);
                        all = all.push(group.deep());
                    }
                    if group.items.len() > 0 {
                        let ghost held = group;
                        let ghost old_groups = groups@;
                        groups.push(group);
                        proof {
                            assert(groups@.map_values(|group: Group<Mensa>| group.deep())
                                =~= before.push(held.deep()));
                            assert forall|g: int| 0 <= g < groups@.len() implies (
                            #[trigger] groups@[g]).items@.len() >= 1 by {
                                if g < old_groups.len() {
                                    assert(old_groups[g].items@.len() >= 1);
                                }
                            }
                            assert forall|g: int| 0 <= g < groups@.len() implies (
                            #[trigger] groups@[g]).name@.len() >= 1 by {
                                if g < old_groups.len() {
                                    assert(old_groups[g].name@.len() >= 1);
                                }
                            }
                        }
                    }
                },
                Err(error) => {
                    proof {
                        lemma_try_map_prefix_fails(found@, read, i + 1);
                    }
                    return Err(error);
                },
            }
            i += 1;
        }
        assert(found@.take(i as int) =~= found@);
        let codes = Response(groups);
        proof {
            assert forall|g: int| 0 <= g < codes@.len() implies (#[trigger] codes@[g]).items.len()
                >= 1 by {
                assert(codes.0@[g].items@.len() >= 1);
            }
            assert forall|g: int| 0 <= g < codes@.len() implies (#[trigger] codes@[g]).name.len()
                >= 1 by {
                assert(codes.0@[g].name@.len() >= 1);
            }
            assert(codes.deep() =~= codes.0@.map_values(|group: Group<Mensa>| group.deep()));
        }
        Ok(codes)
    }
}

/// Keeps the items of `response` that `predicate` accepts and drops every
/// group that is left without one. Groups and items stay in their order.
pub fn filter_response<A, F: Fn(&A) -> bool>(predicate: F, response: Response<A>) -> (kept:
    Response<A>)
    requires
        decides_all(predicate, response@),
    ensures
        kept@ == filtered(response@, |x: A| accepts(predicate, x)),
        no_group_empty(kept@),
        all_named(response@) ==> all_named(kept@),
        answers_all(predicate, response@),
{
    response.filter(predicate)
}

/// Whether the name or the address of `mensa` holds `pattern`, letters of
/// either case counting alike.
pub open spec fn mensa_matches(pattern: Seq<char>, mensa: MensaModel) -> bool {
    contains_folded(mensa.name, pattern) || contains_folded(mensa.address, pattern)
}

/// Of `codes`, the facilities that `pattern` asks for: all of them where
/// there is no pattern.
pub open spec fn codes_wanted(
    pattern: Option<Seq<char>>,
    codes: Seq<GroupModel<MensaModel>>,
) -> Seq<GroupModel<MensaModel>> {
    match pattern {
        Some(pattern) => filtered(codes, |mensa: MensaModel| mensa_matches(pattern, mensa)),
        None => codes,
    }
}

/// Of `codes`, the facilities whose name or address holds `pattern`, letters
/// of either case counting alike, without the groups that have none; all of
/// `codes` where there is no pattern.
pub fn get(pattern: Option<String>, codes: Response<Mensa>) -> (found: Response<Mensa>)
    ensures
        found.deep() == codes_wanted(pattern.deep_view(), codes.deep()),
        pattern is Some ==> no_group_empty(found@),
        all_named(codes@) ==> all_named(found@),
{
    match pattern {
        Some(pattern) => {
            let ghost all = codes@;
            let wanted = |mensa: &Mensa| -> (wanted: bool)
                ensures
                    wanted == mensa_matches(pattern@, mensa@),
                {
                    has_folded(mensa.name.as_str(), pattern.as_str()) || has_folded(
                        mensa.address.as_str(),
                        pattern.as_str(),
                    )
                };
            let kept = filter_response(wanted, codes);
            proof {
                let matches = |mensa: MensaModel| mensa_matches(pattern@, mensa);
                lemma_filtered_agree(
                    all,
                    |mensa: Mensa| accepts(wanted, mensa),
                    |mensa: Mensa| matches(mensa@),
                );
                lemma_filtered_deep(all, matches);
            }
            kept
        },
        None => codes,
    }
}

} // verus!
