//! What the proxy knows of single packets.
//!
//! [`GamePacket`] is a clientbound packet as far as the proxy reads it, and
//! [`Packet`] a packet that the proxy sends to a client. Values that the proxy
//! only carries through (item stacks, formatted texts, metadata values) are
//! held in their encoded form, and floating-point numbers as their bits.

use vstd::prelude::*;

use crate::ids;
use crate::plugin::{Frame, FrameView};
use crate::table;
use crate::table::{Key, Rank, Table};
use crate::views;
use crate::views::group_views;

verus! {

broadcast use group_views;

/// A point or a velocity; each coordinate is the bits of a double.
#[derive(Clone, Copy, Debug, PartialEq)]
pub struct Point {
    pub x: u64,
    pub y: u64,
    pub z: u64,
}

/// A view direction in degrees; each angle is the bits of a single.
#[derive(Clone, Copy, Debug, PartialEq)]
pub struct Look {
    pub y_rot: u32,
    pub x_rot: u32,
}

/// A view direction in steps of 1/256 of a turn.
#[derive(Clone, Copy, Debug, PartialEq)]
pub struct Turn {
    pub y_rot: i8,
    pub x_rot: i8,
}

/// The position of a block.
#[derive(Clone, Copy, Debug, PartialEq)]
pub struct BlockPos {
    pub x: i32,
    pub y: i32,
    pub z: i32,
}

impl View for BlockPos {
    type V = BlockPos;

    open spec fn view(&self) -> BlockPos {
        *self
    }
}

/// Positions are ordered by `x`, then by `y`, then by `z`.
impl Key for BlockPos {
    open spec fn below(a: BlockPos, b: BlockPos) -> bool {
        a.x < b.x || (a.x == b.x && (a.y < b.y || (a.y == b.y && a.z < b.z)))
    }

    proof fn below_irreflexive(a: BlockPos) {
    }

    proof fn below_transitive(a: BlockPos, b: BlockPos, c: BlockPos) {
    }

    proof fn below_total(a: BlockPos, b: BlockPos) {
    }

    fn rank(&self, other: &BlockPos) -> (r: Rank) {
        if self.x < other.x {
            Rank::Below
        } else if self.x > other.x {
            Rank::Above
        } else if self.y < other.y {
            Rank::Below
        } else if self.y > other.y {
            Rank::Above
        } else if self.z < other.z {
            Rank::Below
        } else if self.z > other.z {
            Rank::Above
        } else {
            Rank::Same
        }
    }

    fn duplicate(&self) -> (r: BlockPos) {
        *self
    }
}

/// A signed property of a player profile, such as its skin.
#[derive(Debug, PartialEq)]
pub struct Property {
    pub name: String,
    pub value: String,
    pub signature: Option<String>,
}

/// What a [`Property`] holds.
#[verifier::ext_equal]
pub struct PropertyView {
    pub name: Seq<char>,
    pub value: Seq<char>,
    pub signature: Option<Seq<char>>,
}

impl View for Property {
    type V = PropertyView;

    open spec fn view(&self) -> PropertyView {
        PropertyView {
            name: self.name@,
            value: self.value@,
            signature: views::seen(self.signature),
        }
    }
}

/// Who a player is.
#[derive(Debug, PartialEq)]
pub struct Profile {
    pub uuid: u128,
    pub name: String,
    pub properties: Vec<Property>,
}

/// What a [`Profile`] holds.
#[verifier::ext_equal]
pub struct ProfileView {
    pub uuid: u128,
    pub name: Seq<char>,
    pub properties: Seq<PropertyView>,
}

impl View for Profile {
    type V = ProfileView;

    open spec fn view(&self) -> ProfileView {
        ProfileView {
            uuid: self.uuid,
            name: self.name@,
            properties: views::views(self.properties@),
        }
    }
}

/// One line of the tab list.
#[derive(Debug, PartialEq)]
pub struct PlayerInfoEntry {
    pub profile: Profile,
    pub chat_session: Option<Vec<u8>>,
    pub game_mode: u8,
    pub listed: bool,
    pub latency: i32,
    pub display_name: Option<Vec<u8>>,
    pub list_order: i32,
    pub update_hat: bool,
}

/// What a [`PlayerInfoEntry`] holds.
#[verifier::ext_equal]
pub struct PlayerInfoView {
    pub profile: ProfileView,
    pub chat_session: Option<Seq<u8>>,
    pub game_mode: u8,
    pub listed: bool,
    pub latency: i32,
    pub display_name: Option<Seq<u8>>,
    pub list_order: i32,
    pub update_hat: bool,
}

impl View for PlayerInfoEntry {
    type V = PlayerInfoView;

    open spec fn view(&self) -> PlayerInfoView {
        PlayerInfoView {
            profile: self.profile@,
            chat_session: views::seen(self.chat_session),
            game_mode: self.game_mode,
            listed: self.listed,
            latency: self.latency,
            display_name: views::seen(self.display_name),
            list_order: self.list_order,
            update_hat: self.update_hat,
        }
    }
}

/// Which parts of a tab-list entry an update carries.
#[derive(Clone, Copy, Debug, PartialEq)]
pub struct PlayerInfoActions {
    pub add_player: bool,
    pub initialize_chat: bool,
    pub update_game_mode: bool,
    pub update_listed: bool,
    pub update_latency: bool,
    pub update_display_name: bool,
    pub update_list_order: bool,
    pub update_hat: bool,
}

/// The state of a boss bar.
#[derive(Debug, PartialEq)]
pub struct BossBar {
    pub name: Vec<u8>,
    /// The bits of a single.
    pub progress: u32,
    pub color: u8,
    pub overlay: u8,
    /// Bit 0: darken the screen; bit 1: play music; bit 2: create fog.
    pub properties: u8,
}

/// What a [`BossBar`] holds.
#[verifier::ext_equal]
pub struct BossBarView {
    pub name: Seq<u8>,
    pub progress: u32,
    pub color: u8,
    pub overlay: u8,
    pub properties: u8,
}

impl View for BossBar {
    type V = BossBarView;

    open spec fn view(&self) -> BossBarView {
        BossBarView {
            name: self.name@,
            progress: self.progress,
            color: self.color,
            overlay: self.overlay,
            properties: self.properties,
        }
    }
}

/// What happens to a boss bar.
#[derive(Debug, PartialEq)]
pub enum BossOperation {
    Add(BossBar),
    Remove,
    UpdateProgress(u32),
    UpdateName(Vec<u8>),
    UpdateStyle { color: u8, overlay: u8 },
    UpdateProperties(u8),
}

/// What happens to a scoreboard objective. An addition and a change carry the
/// same parameters.
#[derive(Debug, PartialEq)]
pub enum ObjectiveMethod {
    Add(Vec<u8>),
    Remove,
    Change(Vec<u8>),
}

/// What happens to a team.
#[derive(Debug, PartialEq)]
pub enum TeamMethod {
    Add { parameters: Vec<u8>, players: Vec<String> },
    Remove,
    Change(Vec<u8>),
    Join(Vec<String>),
    Leave(Vec<String>),
}

/// A rectangle of map colors, row by row.
#[derive(Debug, PartialEq)]
pub struct MapPatch {
    pub width: u8,
    pub height: u8,
    pub start_x: u8,
    pub start_y: u8,
    pub map_colors: Vec<u8>,
}

/// One changed block of a chunk section, at its place within the section.
#[derive(Clone, Copy, Debug, PartialEq)]
pub struct SectionBlock {
    pub x: u8,
    pub y: u8,
    pub z: u8,
    pub state: u32,
}

/// The world border. Sizes and coordinates are the bits of doubles.
#[derive(Clone, Copy, Debug, PartialEq)]
pub struct Border {
    pub center_x: u64,
    pub center_z: u64,
    pub old_size: u64,
    pub new_size: u64,
    pub lerp_millis: u64,
    pub absolute_max_size: u32,
    pub warning_blocks: u32,
    pub warning_time: u32,
}

/// A clientbound packet of the game state, as far as the proxy reads it.
#[derive(Debug, PartialEq)]
#[allow(inconsistent_fields)]
pub enum GamePacket {
    /// A packet that is read by position, or not at all, or that cannot be
    /// read.
    Opaque,
    Login { game_mode: u8, player_id: i32 },
    Respawn { data_to_keep: u8 },
    ChunksBiomes { chunks: Vec<((i32, i32), Vec<u8>)> },
    LightUpdate { x: i32, z: i32 },
    BlockUpdate { pos: BlockPos },
    SectionBlocksUpdate { section: BlockPos, states: Vec<SectionBlock> },
    BlockEntityData { pos: BlockPos },
    AddEntity { id: i32, uuid: u128, pos: Point, look: Turn, head_rot: i8, motion: Point },
    RemoveEntities { ids: Vec<i32> },
    /// `pos` is where the entity is after the move.
    MoveEntityPos { id: i32, pos: Point, on_ground: bool },
    /// `pos` is where the entity is after the move.
    MoveEntityPosRot { id: i32, pos: Point, look: Turn, on_ground: bool },
    MoveEntityRot { id: i32, look: Turn, on_ground: bool },
    EntityPositionSync { id: i32, pos: Point, look: Turn, on_ground: bool },
    /// `pos` and `look` are those after the teleport.
    TeleportEntity { id: i32, pos: Point, look: Turn, on_ground: bool },
    RotateHead { id: i32, head_rot: i8 },
    SetEntityData { id: i32, items: Vec<(u8, Vec<u8>)> },
    SetEquipment { id: i32, slots: Vec<(u8, Vec<u8>)> },
    SetEntityMotion { id: i32, motion: Point },
    SetEntityLink { source: i32, dest: i32 },
    UpdateAttributes { id: i32, values: Vec<(u32, Vec<u8>)> },
    PlayerInfoUpdate { actions: PlayerInfoActions, entries: Vec<PlayerInfoEntry> },
    PlayerInfoRemove { profiles: Vec<u128> },
    SetObjective { name: String, method: ObjectiveMethod },
    SetDisplayObjective { slot: u8, name: String },
    SetScore { owner: String, objective: String },
    ResetScore { owner: String, objective: Option<String> },
    SetPlayerTeam { name: String, method: TeamMethod },
    SetPassengers { vehicle: i32 },
    SetHeldSlot { slot: u32 },
    ContainerSetContent { container: i32, items: Vec<Vec<u8>> },
    ContainerSetSlot { container: i32, slot: u16, item: Vec<u8> },
    SetPlayerInventory { slot: u32, item: Vec<u8> },
    BossEvent { id: u128, operation: BossOperation },
    MapItemData {
        map_id: u32,
        scale: u8,
        locked: bool,
        decorations: Option<Vec<u8>>,
        patch: Option<MapPatch>,
    },
    Cooldown { item: u32, duration: u32 },
    InitializeBorder(Border),
    SetBorderCenter { x: u64, z: u64 },
    SetBorderSize { size: u64 },
    SetBorderLerpSize { old_size: u64, new_size: u64, lerp_millis: u64 },
    SetBorderWarningDelay { warning_delay: u32 },
    SetBorderWarningDistance { warning_blocks: u32 },
}

/// A packet for a client.
#[derive(Debug, PartialEq)]
#[allow(inconsistent_fields)]
pub enum Packet {
    /// A frame that is sent as it is.
    Raw(Frame),
    ChunksBiomes { chunks: Vec<Vec<u8>> },
    BlockUpdate { pos: BlockPos, state: u32 },
    PlayerInfoUpdate { actions: PlayerInfoActions, entries: Vec<PlayerInfoEntry> },
    EntityPositionSync { id: i32, pos: Point, motion: Point, look: Turn, on_ground: bool },
    RotateHead { id: i32, head_rot: i8 },
    SetEntityData { id: i32, items: Vec<(u8, Vec<u8>)> },
    SetEquipment { id: i32, slots: Vec<(u8, Vec<u8>)> },
    UpdateAttributes { id: i32, values: Vec<Vec<u8>> },
    /// The border as it stood `elapsed_millis` ago, with `remaining_millis`
    /// of its resizing to come.
    InitializeBorder { border: Border, elapsed_millis: u64, remaining_millis: u64 },
    SetPlayerInventory { slot: u32, item: Vec<u8> },
    /// A whole map, or one without colors.
    MapItemData {
        map_id: u32,
        scale: u8,
        locked: bool,
        decorations: Option<Vec<u8>>,
        colors: Option<Vec<u8>>,
    },
    Cooldown { item: u32, duration: u32 },
    AddObjective { name: String, parameters: Vec<u8> },
    AddTeam { name: String, parameters: Vec<u8>, players: Vec<String> },
    AddBossBar { id: u128, bar: BossBar },
    /// A player entity that looks along `look`, at rest.
    AddPlayer { id: i32, uuid: u128, pos: Point, look: Look },
    /// Turns the head of an entity to an angle in degrees.
    TurnHead { id: i32, y_rot: u32 },
    SystemChat { text: String },
}

/// What a [`Packet`] holds.
#[verifier::ext_equal]
#[allow(inconsistent_fields)]
pub enum PacketView {
    Raw(FrameView),
    ChunksBiomes { chunks: Seq<Seq<u8>> },
    BlockUpdate { pos: BlockPos, state: u32 },
    PlayerInfoUpdate { actions: PlayerInfoActions, entries: Seq<PlayerInfoView> },
    EntityPositionSync { id: i32, pos: Point, motion: Point, look: Turn, on_ground: bool },
    RotateHead { id: i32, head_rot: i8 },
    SetEntityData { id: i32, items: Seq<(u8, Seq<u8>)> },
    SetEquipment { id: i32, slots: Seq<(u8, Seq<u8>)> },
    UpdateAttributes { id: i32, values: Seq<Seq<u8>> },
    InitializeBorder { border: Border, elapsed_millis: u64, remaining_millis: u64 },
    SetPlayerInventory { slot: u32, item: Seq<u8> },
    MapItemData {
        map_id: u32,
        scale: u8,
        locked: bool,
        decorations: Option<Seq<u8>>,
        colors: Option<Seq<u8>>,
    },
    Cooldown { item: u32, duration: u32 },
    AddObjective { name: Seq<char>, parameters: Seq<u8> },
    AddTeam { name: Seq<char>, parameters: Seq<u8>, players: Seq<Seq<char>> },
    AddBossBar { id: u128, bar: BossBarView },
    AddPlayer { id: i32, uuid: u128, pos: Point, look: Look },
    TurnHead { id: i32, y_rot: u32 },
    SystemChat { text: Seq<char> },
}

impl View for Packet {
    type V = PacketView;

    open spec fn view(&self) -> PacketView {
        match *self {
            Packet::Raw(f) => PacketView::Raw(f@),
            Packet::ChunksBiomes { chunks } => PacketView::ChunksBiomes {
                chunks: views::views(chunks@),
            },
            Packet::BlockUpdate { pos, state } => PacketView::BlockUpdate { pos, state },
            Packet::PlayerInfoUpdate { actions, entries } => PacketView::PlayerInfoUpdate {
                actions,
                entries: views::views(entries@),
            },
            Packet::EntityPositionSync { id, pos, motion, look, on_ground } =>
                PacketView::EntityPositionSync { id, pos, motion, look, on_ground },
            Packet::RotateHead { id, head_rot } => PacketView::RotateHead { id, head_rot },
            Packet::SetEntityData { id, items } => PacketView::SetEntityData {
                id,
                items: views::views(items@),
            },
            Packet::SetEquipment { id, slots } => PacketView::SetEquipment {
                id,
                slots: views::views(slots@),
            },
            Packet::UpdateAttributes { id, values } => PacketView::UpdateAttributes {
                id,
                values: views::views(values@),
            },
            Packet::InitializeBorder { border, elapsed_millis, remaining_millis } =>
                PacketView::InitializeBorder { border, elapsed_millis, remaining_millis },
            Packet::SetPlayerInventory { slot, item } => PacketView::SetPlayerInventory {
                slot,
                item: item@,
            },
            Packet::MapItemData { map_id, scale, locked, decorations, colors } =>
                PacketView::MapItemData {
                    map_id,
                    scale,
                    locked,
                    decorations: views::seen(decorations),
                    colors: views::seen(colors),
                },
            Packet::Cooldown { item, duration } => PacketView::Cooldown { item, duration },
            Packet::AddObjective { name, parameters } => PacketView::AddObjective {
                name: name@,
                parameters: parameters@,
            },
            Packet::AddTeam { name, parameters, players } => PacketView::AddTeam {
                name: name@,
                parameters: parameters@,
                players: views::views(players@),
            },
            Packet::AddBossBar { id, bar } => PacketView::AddBossBar { id, bar: bar@ },
            Packet::AddPlayer { id, uuid, pos, look } => PacketView::AddPlayer {
                id,
                uuid,
                pos,
                look,
            },
            Packet::TurnHead { id, y_rot } => PacketView::TurnHead { id, y_rot },
            Packet::SystemChat { text } => PacketView::SystemChat { text: text@ },
        }
    }
}

/// The packet id that a packet for a client is sent under.
pub open spec fn wire_id(p: PacketView) -> u32 {
    match p {
        PacketView::Raw(f) => f.packet_id,
        PacketView::ChunksBiomes { .. } => ids::CB_GAME_CHUNKS_BIOMES,
        PacketView::BlockUpdate { .. } => ids::CB_GAME_BLOCK_UPDATE,
        PacketView::PlayerInfoUpdate { .. } => ids::CB_GAME_PLAYER_INFO_UPDATE,
        PacketView::EntityPositionSync { .. } => ids::CB_GAME_ENTITY_POSITION_SYNC,
        PacketView::RotateHead { .. } => ids::CB_GAME_ROTATE_HEAD,
        PacketView::SetEntityData { .. } => ids::CB_GAME_SET_ENTITY_DATA,
        PacketView::SetEquipment { .. } => ids::CB_GAME_SET_EQUIPMENT,
        PacketView::UpdateAttributes { .. } => ids::CB_GAME_UPDATE_ATTRIBUTES,
        PacketView::InitializeBorder { .. } => ids::CB_GAME_INITIALIZE_BORDER,
        PacketView::SetPlayerInventory { .. } => ids::CB_GAME_SET_PLAYER_INVENTORY,
        PacketView::MapItemData { .. } => ids::CB_GAME_MAP_ITEM_DATA,
        PacketView::Cooldown { .. } => ids::CB_GAME_COOLDOWN,
        PacketView::AddObjective { .. } => ids::CB_GAME_SET_OBJECTIVE,
        PacketView::AddTeam { .. } => ids::CB_GAME_SET_PLAYER_TEAM,
        PacketView::AddBossBar { .. } => ids::CB_GAME_BOSS_EVENT,
        PacketView::AddPlayer { .. } => ids::CB_GAME_ADD_ENTITY,
        PacketView::TurnHead { .. } => ids::CB_GAME_ROTATE_HEAD,
        PacketView::SystemChat { .. } => ids::CB_GAME_SYSTEM_CHAT,
    }
}

/// The packet id of the frames that are read as `p`; `None` for a packet that
/// is not read by its fields.
pub open spec fn read_id(p: GamePacket) -> Option<u32> {
    match p {
        GamePacket::Opaque => None,
        GamePacket::Login { .. } => Some(ids::CB_GAME_LOGIN),
        GamePacket::Respawn { .. } => Some(ids::CB_GAME_RESPAWN),
        GamePacket::ChunksBiomes { .. } => Some(ids::CB_GAME_CHUNKS_BIOMES),
        GamePacket::LightUpdate { .. } => Some(ids::CB_GAME_LIGHT_UPDATE),
        GamePacket::BlockUpdate { .. } => Some(ids::CB_GAME_BLOCK_UPDATE),
        GamePacket::SectionBlocksUpdate { .. } => Some(ids::CB_GAME_SECTION_BLOCKS_UPDATE),
        GamePacket::BlockEntityData { .. } => Some(ids::CB_GAME_BLOCK_ENTITY_DATA),
        GamePacket::AddEntity { .. } => Some(ids::CB_GAME_ADD_ENTITY),
        GamePacket::RemoveEntities { .. } => Some(ids::CB_GAME_REMOVE_ENTITIES),
        GamePacket::MoveEntityPos { .. } => Some(ids::CB_GAME_MOVE_ENTITY_POS),
        GamePacket::MoveEntityPosRot { .. } => Some(ids::CB_GAME_MOVE_ENTITY_POS_ROT),
        GamePacket::MoveEntityRot { .. } => Some(ids::CB_GAME_MOVE_ENTITY_ROT),
        GamePacket::EntityPositionSync { .. } => Some(ids::CB_GAME_ENTITY_POSITION_SYNC),
        GamePacket::TeleportEntity { .. } => Some(ids::CB_GAME_TELEPORT_ENTITY),
        GamePacket::RotateHead { .. } => Some(ids::CB_GAME_ROTATE_HEAD),
        GamePacket::SetEntityData { .. } => Some(ids::CB_GAME_SET_ENTITY_DATA),
        GamePacket::SetEquipment { .. } => Some(ids::CB_GAME_SET_EQUIPMENT),
        GamePacket::SetEntityMotion { .. } => Some(ids::CB_GAME_SET_ENTITY_MOTION),
        GamePacket::SetEntityLink { .. } => Some(ids::CB_GAME_SET_ENTITY_LINK),
        GamePacket::UpdateAttributes { .. } => Some(ids::CB_GAME_UPDATE_ATTRIBUTES),
        GamePacket::PlayerInfoUpdate { .. } => Some(ids::CB_GAME_PLAYER_INFO_UPDATE),
        GamePacket::PlayerInfoRemove { .. } => Some(ids::CB_GAME_PLAYER_INFO_REMOVE),
        GamePacket::SetObjective { .. } => Some(ids::CB_GAME_SET_OBJECTIVE),
        GamePacket::SetDisplayObjective { .. } => Some(ids::CB_GAME_SET_DISPLAY_OBJECTIVE),
        GamePacket::SetScore { .. } => Some(ids::CB_GAME_SET_SCORE),
        GamePacket::ResetScore { .. } => Some(ids::CB_GAME_RESET_SCORE),
        GamePacket::SetPlayerTeam { .. } => Some(ids::CB_GAME_SET_PLAYER_TEAM),
        GamePacket::SetPassengers { .. } => Some(ids::CB_GAME_SET_PASSENGERS),
        GamePacket::SetHeldSlot { .. } => Some(ids::CB_GAME_SET_HELD_SLOT),
        GamePacket::ContainerSetContent { .. } => Some(ids::CB_GAME_CONTAINER_SET_CONTENT),
        GamePacket::ContainerSetSlot { .. } => Some(ids::CB_GAME_CONTAINER_SET_SLOT),
        GamePacket::SetPlayerInventory { .. } => Some(ids::CB_GAME_SET_PLAYER_INVENTORY),
        GamePacket::BossEvent { .. } => Some(ids::CB_GAME_BOSS_EVENT),
        GamePacket::MapItemData { .. } => Some(ids::CB_GAME_MAP_ITEM_DATA),
        GamePacket::Cooldown { .. } => Some(ids::CB_GAME_COOLDOWN),
        GamePacket::InitializeBorder(_) => Some(ids::CB_GAME_INITIALIZE_BORDER),
        GamePacket::SetBorderCenter { .. } => Some(ids::CB_GAME_SET_BORDER_CENTER),
        GamePacket::SetBorderSize { .. } => Some(ids::CB_GAME_SET_BORDER_SIZE),
        GamePacket::SetBorderLerpSize { .. } => Some(ids::CB_GAME_SET_BORDER_LERP_SIZE),
        GamePacket::SetBorderWarningDelay { .. } => Some(ids::CB_GAME_SET_BORDER_WARNING_DELAY),
        GamePacket::SetBorderWarningDistance { .. } => Some(
            ids::CB_GAME_SET_BORDER_WARNING_DISTANCE,
        ),
    }
}

/// `p` is what a frame may be read as: a frame is read by its fields as a
/// packet of its own kind, or not at all.
pub open spec fn fits(f: FrameView, p: GamePacket) -> bool {
    read_id(p) matches Some(id) ==> f.packet_id == id
}

/// A copy of some bytes.
pub fn copy_bytes(b: &Vec<u8>) -> (r: Vec<u8>)
    ensures
        r@ == b@,
{
    b.clone()
}

/// A copy of bytes that may be there.
pub fn copy_optional(b: &Option<Vec<u8>>) -> (r: Option<Vec<u8>>)
    ensures
        views::seen(r) == views::seen(*b),
{
    match b {
        Some(b) => Some(copy_bytes(b)),
        None => None,
    }
}

impl Clone for Property {
    fn clone(&self) -> (r: Property)
        ensures
            r@ == self@,
    {
        Property {
            name: self.name.clone(),
            value: self.value.clone(),
            signature: match &self.signature {
                Some(s) => Some(s.clone()),
                None => None,
            },
        }
    }
}

impl Clone for Profile {
    fn clone(&self) -> (r: Profile)
        ensures
            r@ == self@,
    {
        let properties: Vec<Property> = self.properties.clone();
        proof {
            assert(views::views(properties@) =~= views::views(self.properties@));
        }
        Profile { uuid: self.uuid, name: self.name.clone(), properties }
    }
}

impl Clone for PlayerInfoEntry {
    fn clone(&self) -> (r: PlayerInfoEntry)
        ensures
            r@ == self@,
    {
        PlayerInfoEntry {
            profile: self.profile.clone(),
            chat_session: copy_optional(&self.chat_session),
            game_mode: self.game_mode,
            listed: self.listed,
            latency: self.latency,
            display_name: copy_optional(&self.display_name),
            list_order: self.list_order,
            update_hat: self.update_hat,
        }
    }
}

impl Clone for BossBar {
    fn clone(&self) -> (r: BossBar)
        ensures
            r@ == self@,
    {
        BossBar {
            name: copy_bytes(&self.name),
            progress: self.progress,
            color: self.color,
            overlay: self.overlay,
            properties: self.properties,
        }
    }
}

fn copy_items(items: &Vec<(u8, Vec<u8>)>) -> (r: Vec<(u8, Vec<u8>)>)
    ensures
        views::views(r@) == views::views(items@),
{
    let mut r: Vec<(u8, Vec<u8>)> = Vec::new();
    let mut i: usize = 0;
    while i < items.len()
        invariant
            i <= items.len(),
            views::views(r@) == views::views(items@).take(i as int),
        decreases items.len() - i,
    {
        r.push((items[i].0, copy_bytes(&items[i].1)));
        proof {
            assert(views::views(items@).take(i + 1) =~= views::views(items@).take(i as int).push(
                items@[i as int]@,
            ));
        }
        i = i + 1;
    }
    proof {
        assert(views::views(items@).take(i as int) =~= views::views(items@));
    }
    r
}

fn copy_chunks(chunks: &Vec<Vec<u8>>) -> (r: Vec<Vec<u8>>)
    ensures
        views::views(r@) == views::views(chunks@),
{
    let mut r: Vec<Vec<u8>> = Vec::new();
    let mut i: usize = 0;
    while i < chunks.len()
        invariant
            i <= chunks.len(),
            views::views(r@) == views::views(chunks@).take(i as int),
        decreases chunks.len() - i,
    {
        r.push(copy_bytes(&chunks[i]));
        proof {
            assert(views::views(chunks@).take(i + 1) =~= views::views(chunks@).take(i as int).push(
                chunks@[i as int]@,
            ));
        }
        i = i + 1;
    }
    proof {
        assert(views::views(chunks@).take(i as int) =~= views::views(chunks@));
    }
    r
}

fn copy_names(names: &Vec<String>) -> (r: Vec<String>)
    ensures
        views::views(r@) == views::views(names@),
{
    let mut r: Vec<String> = Vec::new();
    let mut i: usize = 0;
    while i < names.len()
        invariant
            i <= names.len(),
            views::views(r@) == views::views(names@).take(i as int),
        decreases names.len() - i,
    {
        r.push(names[i].clone());
        proof {
            assert(views::views(names@).take(i + 1) =~= views::views(names@).take(i as int).push(
                names@[i as int]@,
            ));
        }
        i = i + 1;
    }
    proof {
        assert(views::views(names@).take(i as int) =~= views::views(names@));
    }
    r
}

impl Clone for Packet {
    fn clone(&self) -> (r: Packet)
        ensures
            r@ == self@,
    {
        match self {
            Packet::Raw(f) => Packet::Raw(f.clone()),
            Packet::ChunksBiomes { chunks } => Packet::ChunksBiomes { chunks: copy_chunks(chunks) },
            Packet::BlockUpdate { pos, state } => Packet::BlockUpdate { pos: *pos, state: *state },
            Packet::PlayerInfoUpdate { actions, entries } => {
                let copy: Vec<PlayerInfoEntry> = entries.clone();
                proof {
                    assert(views::views(copy@) =~= views::views(entries@));
                }
                Packet::PlayerInfoUpdate { actions: *actions, entries: copy }
            },
            Packet::EntityPositionSync { id, pos, motion, look, on_ground } =>
                Packet::EntityPositionSync {
                    id: *id,
                    pos: *pos,
                    motion: *motion,
                    look: *look,
                    on_ground: *on_ground,
                },
            Packet::RotateHead { id, head_rot } => Packet::RotateHead {
                id: *id,
                head_rot: *head_rot,
            },
            Packet::SetEntityData { id, items } => Packet::SetEntityData {
                id: *id,
                items: copy_items(items),
            },
            Packet::SetEquipment { id, slots } => Packet::SetEquipment {
                id: *id,
                slots: copy_items(slots),
            },
            Packet::UpdateAttributes { id, values } => Packet::UpdateAttributes {
                id: *id,
                values: copy_chunks(values),
            },
            Packet::InitializeBorder { border, elapsed_millis, remaining_millis } =>
                Packet::InitializeBorder {
                    border: *border,
                    elapsed_millis: *elapsed_millis,
                    remaining_millis: *remaining_millis,
                },
            Packet::SetPlayerInventory { slot, item } => Packet::SetPlayerInventory {
                slot: *slot,
                item: copy_bytes(item),
            },
            Packet::MapItemData { map_id, scale, locked, decorations, colors } =>
                Packet::MapItemData {
                    map_id: *map_id,
                    scale: *scale,
                    locked: *locked,
                    decorations: copy_optional(decorations),
                    colors: copy_optional(colors),
                },
            Packet::Cooldown { item, duration } => Packet::Cooldown {
                item: *item,
                duration: *duration,
            },
            Packet::AddObjective { name, parameters } => Packet::AddObjective {
                name: name.clone(),
                parameters: copy_bytes(parameters),
            },
            Packet::AddTeam { name, parameters, players } => Packet::AddTeam {
                name: name.clone(),
                parameters: copy_bytes(parameters),
                players: copy_names(players),
            },
            Packet::AddBossBar { id, bar } => Packet::AddBossBar { id: *id, bar: bar.clone() },
            Packet::AddPlayer { id, uuid, pos, look } => Packet::AddPlayer {
                id: *id,
                uuid: *uuid,
                pos: *pos,
                look: *look,
            },
            Packet::TurnHead { id, y_rot } => Packet::TurnHead { id: *id, y_rot: *y_rot },
            Packet::SystemChat { text } => Packet::SystemChat { text: text.clone() },
        }
    }
}

/// A frame that may be there, sent as it is.
pub open spec fn raw(frame: Option<FrameView>) -> Seq<PacketView> {
    match frame {
        Some(f) => seq![PacketView::Raw(f)],
        None => Seq::empty(),
    }
}

/// Frames sent as they are.
pub open spec fn raws(frames: Seq<FrameView>) -> Seq<PacketView> {
    Seq::new(frames.len(), |i: int| PacketView::Raw(frames[i]))
}

/// Queues a frame that may be there.
pub fn queue_frame(queue: &mut Vec<Packet>, frame: &Option<Frame>)
    ensures
        views::views(final(queue)@) == views::views(old(queue)@) + raw(views::seen(*frame)),
{
    let ghost before = views::views(queue@);
    match frame {
        Some(f) => {
            queue.push(Packet::Raw(f.clone()));
            proof {
                assert(before.push(PacketView::Raw(f@)) =~= before + raw(Some(f@)));
            }
        },
        None => {
            proof {
                assert(before + raw(None) =~= before);
            }
        },
    }
}

/// Queues frames in order.
pub fn queue_frames(queue: &mut Vec<Packet>, frames: &Vec<Frame>)
    ensures
        views::views(final(queue)@) == views::views(old(queue)@) + raws(views::views(frames@)),
{
    let ghost before = views::views(queue@);
    let ghost all = raws(views::views(frames@));
    let mut i: usize = 0;
    proof {
        assert(before =~= before + all.take(0));
    }
    while i < frames.len()
        invariant
            i <= frames.len(),
            all == raws(views::views(frames@)),
            views::views(queue@) == before + all.take(i as int),
        decreases frames.len() - i,
    {
        queue.push(Packet::Raw(frames[i].clone()));
        proof {
            assert((before + all.take(i as int)).push(all[i as int]) =~= before + all.take(i + 1));
        }
        i = i + 1;
    }
    proof {
        assert(all.take(i as int) =~= all);
    }
}

/// Queues the frames of a table in the order of their keys.
pub fn queue_table<K: Key>(queue: &mut Vec<Packet>, frames: &Table<K, Frame>)
    ensures
        views::views(final(queue)@) == views::views(old(queue)@) + raws(
            table::values_in_order::<K, FrameView>(frames@),
        ),
{
    let ghost before = views::views(queue@);
    let ghost all = raws(table::values_in_order::<K, FrameView>(frames@));
    let n: usize = frames.len();
    let mut i: usize = 0;
    proof {
        assert(before =~= before + all.take(0));
    }
    while i < n
        invariant
            i <= n,
            n == table::in_order::<K, FrameView>(frames@).len(),
            all == raws(table::values_in_order::<K, FrameView>(frames@)),
            views::views(queue@) == before + all.take(i as int),
        decreases n - i,
    {
        queue.push(Packet::Raw(frames.value_at(i).clone()));
        proof {
            assert((before + all.take(i as int)).push(all[i as int]) =~= before + all.take(i + 1));
        }
        i = i + 1;
    }
    proof {
        assert(all.take(i as int) =~= all);
    }
}

/// Queues packets in order.
pub fn queue_all(queue: &mut Vec<Packet>, mut packets: Vec<Packet>)
    ensures
        views::views(final(queue)@) == views::views(old(queue)@) + views::views(packets@),
{
    queue.append(&mut packets);
}

} // verus!
