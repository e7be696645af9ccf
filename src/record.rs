//! Raw card records as the external card feed supplies them.
use vstd::prelude::*;

verus! {

/// The kind of set a card was printed in.
#[derive(Debug, Clone, Copy, PartialEq, Eq, Structural)]
pub enum SetType {
    Alchemy,
    Archenemy,
    Arsenal,
    Box,
    Commander,
    Core,
    DraftInnovation,
    DuelDeck,
    Expansion,
    FromTheVault,
    Funny,
    Masterpiece,
    Masters,
    Memorabilia,
    Minigame,
    Planechase,
    PremiumDeck,
    Promo,
    SpellBook,
    Starter,
    Token,
    TreasureChest,
    Vanguard,
}

/// A colour of mana or a colour symbol.
#[derive(Debug, Clone, Copy, PartialEq, Eq, Structural)]
pub enum Colour {
    White,
    Blue,
    Black,
    Red,
    Green,
    Colourless,
    Tap,
}

/// Whether a card may be played in a format.
#[derive(Debug, Clone, Copy, PartialEq, Eq, Structural)]
pub enum Legality {
    Legal,
    NotLegal,
    Banned,
    Restricted,
}

/// The legality of a card in each format.
#[derive(Debug, Clone, Copy)]
pub struct FormatLegalities {
    pub standard: Legality,
    pub future: Legality,
    pub historic: Legality,
    pub timeless: Legality,
    pub gladiator: Legality,
    pub pioneer: Legality,
    pub modern: Legality,
    pub legacy: Legality,
    pub pauper: Legality,
    pub vintage: Legality,
    pub penny: Legality,
    pub commander: Legality,
    pub oathbreaker: Legality,
    pub standardbrawl: Legality,
    pub brawl: Legality,
    pub alchemy: Legality,
    pub paupercommander: Legality,
    pub duel: Legality,
    pub oldschool: Legality,
    pub premodern: Legality,
    pub predh: Legality,
}

/// The colour of a printed border.
#[derive(Debug, Clone, Copy, PartialEq, Eq, Structural)]
pub enum BorderColour {
    Black,
    White,
    Borderless,
    Yellow,
    Silver,
    Gold,
}

/// A finish a card was printed in.
#[derive(Debug, Clone, Copy, PartialEq, Eq, Structural)]
pub enum Finish {
    Foil,
    NonFoil,
    Etched,
}

/// The frame layout of a printing.
#[derive(Debug, Clone, Copy, PartialEq, Eq, Structural)]
pub enum Frame {
    NinetyThree,
    NinetySeven,
    OhThree,
    Fifteen,
    Future,
}

/// A special frame treatment of a printing.
#[derive(Debug, Clone, Copy, PartialEq, Eq, Structural)]
pub enum FrameEffect {
    Legendary,
    Miracle,
    Enchantment,
    Draft,
    Devoid,
    Tombstone,
    Colourshifted,
    Inverted,
    SunMoonDFC,
    CompassLandDFC,
    OriginPwDFC,
    MoonEldraziDFC,
    WaxingAndWaningMoonDFC,
    Showcase,
    ExtendedArt,
    Companion,
    Etched,
    Snow,
    Lesson,
    ShatteredGlass,
    ConvertDFC,
    FanDFC,
    UpsideDownDFC,
    Spree,
    FullArt,
}

/// A game a printing is available in.
#[derive(Debug, Clone, Copy, PartialEq, Eq, Structural)]
pub enum Game {
    Paper,
    Mtgo,
    Arena,
    Astral,
    Sega,
}

/// The quality of the images held for a printing.
#[derive(Debug, Clone, Copy, PartialEq, Eq, Structural)]
pub enum ImageStatus {
    Missing,
    Placeholder,
    LowResolution,
    HighResolutionScan,
}

/// Addresses of the images of a printing.
#[derive(Debug)]
pub struct ImageURIs {
    pub png: Option<String>,
    pub border_crop: Option<String>,
    pub art_crop: Option<String>,
    pub large: Option<String>,
    pub normal: Option<String>,
    pub small: Option<String>,
}

/// Market prices of a printing, as decimal strings.
#[derive(Debug)]
pub struct Prices {
    pub usd: Option<String>,
    pub usd_foil: Option<String>,
    pub usd_etched: Option<String>,
    pub eur: Option<String>,
    pub eur_foil: Option<String>,
    pub tix: Option<String>,
}

/// The rarity of a printing.
#[derive(Debug, Clone, Copy, PartialEq, Eq, Structural)]
pub enum Rarity {
    Common,
    Uncommon,
    Rare,
    Special,
    Mythic,
    Bonus,
}

/// Addresses where a printing can be bought.
#[derive(Debug)]
pub struct PurchaseUris {
    pub tcgplayer: String,
    pub cardmarket: String,
    pub cardhoarder: String,
}

/// The security stamp printed on a card.
#[derive(Debug, Clone, Copy, PartialEq, Eq, Structural)]
pub enum SecurityStamp {
    Oval,
    Triangle,
    Acorn,
    Circle,
    Arena,
    Heart,
}

/// How a related card relates to a card.
#[derive(Debug, Clone, Copy, PartialEq, Eq, Structural)]
pub enum Component {
    Token,
    MeldPart,
    MeldResult,
    ComboPiece,
}

/// A kind of promotional printing.
#[derive(Debug, Clone, Copy, PartialEq, Eq, Structural)]
pub enum PromoTypes {
    Alchemy,
    ArenaLeague,
    BeginnerBox,
    BoosterFun,
    BoxTopper,
    BrawlDeck,
    Bundle,
    BuyABox,
    ConfettiFoil,
    Convention,
    DateStamped,
    Dossier,
    DoubleRainbow,
    Embossed,
    Event,
    Fnm,
    GameDay,
    GodzillaSeries,
    HaloFoil,
    Imagine,
    InStore,
    IntroPack,
    InvisibleInk,
    JudgeGift,
    League,
    Magnified,
    ManaFoil,
    MediaInsert,
    PlaneswalkerDeck,
    Plastic,
    PlayerRewards,
    Playtest,
    Poster,
    Prerelease,
    PremiereShop,
    PromoPack,
    RainbowFoil,
    RavnicaCity,
    Rebalanced,
    Release,
    Resale,
    RippleFoil,
    SetPromo,
    Serialised,
    SilverFoil,
    SldBonus,
    Stamped,
    StarterCollection,
    StarterDeck,
    StepAndCompleat,
    SurgeFoil,
    Textured,
    ThemePack,
    Thick,
    Tourney,
    Upsidedown,
    Vault,
    WizardsPlayNetwork,
}
/// The identifiers of records whose two faces show the same card.
pub open spec fn weird_card_ids() -> Seq<Seq<char>> {
    seq![
        "018830b2-dff9-45f3-9cc2-dc5b2eec0e54"@,
        "0489be0d-2117-46a8-97ab-31fe480685e2"@,
        "048ddb71-e9ea-4f11-9b8a-c53961cf3a2c"@,
        "087c3a0d-c710-4451-989e-596b55352184"@,
        "236e9bcf-ced2-4bee-8188-41dd94df02da"@,
        "36ea852d-ed2b-4c56-9b73-52dce8a3e520"@,
        "399bf36a-5901-437f-b5d3-32283cedbbcb"@,
        "3cb0824c-57cc-46bf-bd43-425d58b8a762"@,
        "fe388da5-9197-4d07-be7f-c49fcdf56dfa"@,
        "f973a1f3-6dcb-470d-89d2-6ddbf2426999"@,
        "f4e7b3a4-a346-4177-9cfe-0142b40ef4a6"@,
        "e25ce640-baf5-442b-8b75-d05dd9fb20dd"@,
        "dae8751c-4c72-4034-a192-a1e166f20246"@,
        "d74a72a2-d46a-41c2-a400-70571197b020"@,
        "d5f7a626-7b6b-41ba-a0f5-3aefe511b267"@,
        "d5dfd236-b1da-4552-b94f-ebf6bb9dafdf"@,
        "d002b29b-c3a6-4c91-86e1-96a50ce29966"@,
        "caf8d01d-07aa-43da-a26e-4a2ba3a76f2d"@,
        "c05c6c38-d204-458c-af17-4cf5efd2c7fc"@,
        "bffbe9ec-edbc-43ed-a3bf-60635e7e625c"@,
        "b96d6ea4-a3a4-4e33-be97-b3767f2bb63a"@,
        "acdb72e2-c000-4b92-b5ea-73115969020f"@,
        "aae84079-b65b-4132-86fb-e82503bb6c7b"@,
        "a724ebbc-0f77-42e9-95e0-b3e7cb130148"@,
        "a4a2dd5b-6143-4b8d-ae71-e148cf19b66c"@,
        "a129558c-45a1-441c-97f0-b70b4e9d8a56"@,
        "9f63277b-e139-46c8-b9e3-0cfb647f44cc"@,
        "9e69f9e0-4981-4fc0-955f-7ebe04264fca"@,
        "9d943cf2-0462-4f31-9a92-d76fe4971b17"@,
        "9cd6a16f-1eff-4624-8f7f-4d9e70a694bb"@,
        "9680a2d6-1d66-4f69-b400-a79fea4187d8"@,
        "94eea6e3-20bc-4dab-90ba-3113c120fb90"@,
        "94594d48-b728-4be6-9d7a-c67088df8acd"@,
        "3d89c9be-2489-47e4-8e53-f980c82442b4"@,
        "3e3f0bcd-0796-494d-bf51-94b33c1671e9"@,
        "4696f5de-fe5b-40df-a194-1a73b4c5150f"@,
        "4d227cd3-ebfe-4dd3-929a-4f8ff7c8981e"@,
        "5ab0412a-2b2f-430f-8830-002a42125148"@,
        "60c92f1b-0c78-4809-9365-e1ffa515cb4b"@,
        "6620b5f4-b1e5-4d1b-bbf2-c6ad9c8284c5"@,
        "67574bb4-c443-40fa-b7e6-05e9965c98b8"@,
        "6adadbc9-4a08-4c1d-adf7-edee73799d9e"@,
        "6c69ecd2-cb36-4628-802b-fd5ff7405f22"@,
        "76c343f5-6955-4ba2-a435-36d55182d1dd"@,
        "7e703632-5ed0-4509-a12b-594269f865f1"@,
        "82fa24fb-aecc-4c33-9e79-c29651ddafbe"@,
        "843b35ec-7b59-4a22-8fee-2e876a02306b"@,
        "8ae0caed-940d-45bc-9877-7cc014b2700e"@,
        "8b5341ab-85a6-44b2-b738-1110e699c02b"@,
        "8bcf942f-5afd-414e-a50d-00d884fe59da"@,
        "9052f5c7-ee3b-457d-97ca-ac6b4518997c"@,
    ]
}

/// The identifiers of records whose two faces show the same card, in hyphenated form.
pub fn weird_cards() -> (r: Vec<String>)
    ensures
        crate::text::views(r@) == weird_card_ids(),
{
    let mut r: Vec<String> = Vec::new();
    r.push(String::from_str("018830b2-dff9-45f3-9cc2-dc5b2eec0e54"));
    r.push(String::from_str("0489be0d-2117-46a8-97ab-31fe480685e2"));
    r.push(String::from_str("048ddb71-e9ea-4f11-9b8a-c53961cf3a2c"));
    r.push(String::from_str("087c3a0d-c710-4451-989e-596b55352184"));
    r.push(String::from_str("236e9bcf-ced2-4bee-8188-41dd94df02da"));
    r.push(String::from_str("36ea852d-ed2b-4c56-9b73-52dce8a3e520"));
    r.push(String::from_str("399bf36a-5901-437f-b5d3-32283cedbbcb"));
    r.push(String::from_str("3cb0824c-57cc-46bf-bd43-425d58b8a762"));
    r.push(String::from_str("fe388da5-9197-4d07-be7f-c49fcdf56dfa"));
    r.push(String::from_str("f973a1f3-6dcb-470d-89d2-6ddbf2426999"));
    r.push(String::from_str("f4e7b3a4-a346-4177-9cfe-0142b40ef4a6"));
    r.push(String::from_str("e25ce640-baf5-442b-8b75-d05dd9fb20dd"));
    r.push(String::from_str("dae8751c-4c72-4034-a192-a1e166f20246"));
    r.push(String::from_str("d74a72a2-d46a-41c2-a400-70571197b020"));
    r.push(String::from_str("d5f7a626-7b6b-41ba-a0f5-3aefe511b267"));
    r.push(String::from_str("d5dfd236-b1da-4552-b94f-ebf6bb9dafdf"));
    r.push(String::from_str("d002b29b-c3a6-4c91-86e1-96a50ce29966"));
    r.push(String::from_str("caf8d01d-07aa-43da-a26e-4a2ba3a76f2d"));
    r.push(String::from_str("c05c6c38-d204-458c-af17-4cf5efd2c7fc"));
    r.push(String::from_str("bffbe9ec-edbc-43ed-a3bf-60635e7e625c"));
    r.push(String::from_str("b96d6ea4-a3a4-4e33-be97-b3767f2bb63a"));
    r.push(String::from_str("acdb72e2-c000-4b92-b5ea-73115969020f"));
    r.push(String::from_str("aae84079-b65b-4132-86fb-e82503bb6c7b"));
    r.push(String::from_str("a724ebbc-0f77-42e9-95e0-b3e7cb130148"));
    r.push(String::from_str("a4a2dd5b-6143-4b8d-ae71-e148cf19b66c"));
    r.push(String::from_str("a129558c-45a1-441c-97f0-b70b4e9d8a56"));
    r.push(String::from_str("9f63277b-e139-46c8-b9e3-0cfb647f44cc"));
    r.push(String::from_str("9e69f9e0-4981-4fc0-955f-7ebe04264fca"));
    r.push(String::from_str("9d943cf2-0462-4f31-9a92-d76fe4971b17"));
    r.push(String::from_str("9cd6a16f-1eff-4624-8f7f-4d9e70a694bb"));
    r.push(String::from_str("9680a2d6-1d66-4f69-b400-a79fea4187d8"));
    r.push(String::from_str("94eea6e3-20bc-4dab-90ba-3113c120fb90"));
    r.push(String::from_str("94594d48-b728-4be6-9d7a-c67088df8acd"));
    r.push(String::from_str("3d89c9be-2489-47e4-8e53-f980c82442b4"));
    r.push(String::from_str("3e3f0bcd-0796-494d-bf51-94b33c1671e9"));
    r.push(String::from_str("4696f5de-fe5b-40df-a194-1a73b4c5150f"));
    r.push(String::from_str("4d227cd3-ebfe-4dd3-929a-4f8ff7c8981e"));
    r.push(String::from_str("5ab0412a-2b2f-430f-8830-002a42125148"));
    r.push(String::from_str("60c92f1b-0c78-4809-9365-e1ffa515cb4b"));
    r.push(String::from_str("6620b5f4-b1e5-4d1b-bbf2-c6ad9c8284c5"));
    r.push(String::from_str("67574bb4-c443-40fa-b7e6-05e9965c98b8"));
    r.push(String::from_str("6adadbc9-4a08-4c1d-adf7-edee73799d9e"));
    r.push(String::from_str("6c69ecd2-cb36-4628-802b-fd5ff7405f22"));
    r.push(String::from_str("76c343f5-6955-4ba2-a435-36d55182d1dd"));
    r.push(String::from_str("7e703632-5ed0-4509-a12b-594269f865f1"));
    r.push(String::from_str("82fa24fb-aecc-4c33-9e79-c29651ddafbe"));
    r.push(String::from_str("843b35ec-7b59-4a22-8fee-2e876a02306b"));
    r.push(String::from_str("8ae0caed-940d-45bc-9877-7cc014b2700e"));
    r.push(String::from_str("8b5341ab-85a6-44b2-b738-1110e699c02b"));
    r.push(String::from_str("8bcf942f-5afd-414e-a50d-00d884fe59da"));
    r.push(String::from_str("9052f5c7-ee3b-457d-97ca-ac6b4518997c"));
    assert(crate::text::views(r@) =~= weird_card_ids());
    r
}

/// One printed face of a record with several faces.
#[derive(Debug)]
pub struct ScryfallCardFaceObject {
    pub name: String,
    pub type_line: Option<String>,
    pub oracle_text: Option<String>,
    pub power: Option<String>,
    pub toughness: Option<String>,
    pub loyalty: Option<String>,
    pub mana_cost: Option<String>,
}

/// One record of the card feed, with the fields that normalization reads.
#[derive(Debug)]
pub struct ScryfallCard {
    /// The catalog identifier, as its 16 bytes in little-endian field order.
    pub id: [u8; 16],
    pub name: String,
    pub type_line: String,
    pub oracle_text: Option<String>,
    pub power: Option<String>,
    pub toughness: Option<String>,
    pub loyalty: Option<String>,
    pub mana_cost: Option<String>,
    pub set_type: SetType,
    pub card_faces: Option<Vec<ScryfallCardFaceObject>>,
    pub scryfall_uri: String,
}

} // verus!
