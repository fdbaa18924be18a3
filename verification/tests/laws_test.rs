use zappy::action::{Action, EAction};
use zappy::data::{parse, Direction, Entity, Position, Resource, Rotation, Tile, WorldMap};
use zappy::data::resource::max_for;
use zappy::game::Game;
use zappy::config::{parse_args, ConfigError};
use zappy::server::{tick_due, tick_period_ms, ClientHandler};
use zappy::text::{dec_string, join_strings, parse_bounded, split_words};

fn empty_game(width: usize, height: usize, teams: Vec<String>, clients: usize) -> Game {
    let mut game = Game::new(width, height, teams, clients);
    for i in 0..7 {
        game.deplete(Resource::from_index(i), usize::MAX);
    }
    game
}

fn world_total(game: &Game, player: usize, resource: Resource) -> usize {
    game.count(resource) + game.players()[player].inventory()[resource.index()]
}

#[test]
fn look_at_level_one_sees_four_tiles() {
    let mut game = empty_game(5, 5, vec!["team".to_string()], 5);
    let viewer = game.add_players() as usize;
    assert_eq!(game.look(viewer), "[player,,,]\n");
    game.player_mut(viewer).level_up();
    let seen = game.look(viewer);
    assert_eq!(seen.matches(',').count() + 1, 9);
}

#[test]
fn take_and_set_keep_the_world_total() {
    let mut game = empty_game(3, 3, vec!["team".to_string()], 5);
    let player = game.add_players() as usize;
    game.player_mut(player).set_raw_fd(7);
    let position = game.players()[player].position();
    game.map_mut().put(position, Resource::Sibur);
    game.map_mut().put(position, Resource::Sibur);
    assert_eq!(world_total(&game, player, Resource::Sibur), 2);

    game.player_mut(player).add_action(Action::new_take(Resource::Sibur));
    for _ in 0..7 {
        game.tick();
    }
    assert_eq!(game.count(Resource::Sibur), 1);
    assert_eq!(world_total(&game, player, Resource::Sibur), 2);

    game.player_mut(player).add_action(Action::new_set(Resource::Sibur));
    game.player_mut(player).add_action(Action::new_set(Resource::Sibur));
    let mut answers = String::new();
    for _ in 0..14 {
        if let Some(text) = game.tick().get(&7) {
            answers.push_str(text);
        }
    }
    assert_eq!(answers, "ok\nko\n");
    assert_eq!(game.count(Resource::Sibur), 2);
    assert_eq!(world_total(&game, player, Resource::Sibur), 2);
}

#[test]
fn take_of_a_missing_item_is_refused() {
    let mut game = empty_game(3, 3, vec!["team".to_string()], 5);
    let player = game.add_players() as usize;
    game.player_mut(player).set_raw_fd(8);
    game.player_mut(player).add_action(Action::new_take(Resource::Phiras));
    let mut last = None;
    for _ in 0..7 {
        last = game.tick().get(&8).cloned();
    }
    assert_eq!(last, Some("ko\n".to_string()));
}

#[test]
fn sound_from_a_neighbour_tile_has_its_direction() {
    let mut game = empty_game(3, 3, vec!["team".to_string()], 5);
    let source = game.add_players() as usize;
    let target = game.add_players() as usize;
    game.player_mut(source).set_raw_fd(30);
    game.player_mut(target).set_raw_fd(31);
    game.player_mut(target).set_position(Position { x: 1, y: 0 });
    game.player_mut(source).add_action(Action::new_broadcast("hi".to_string()));
    let mut replies = game.tick();
    for _ in 0..6 {
        replies = game.tick();
    }
    assert_eq!(replies[&31], "message 7, hi\n");
}

#[test]
fn joining_takes_one_slot() {
    let mut game = empty_game(3, 3, vec!["team".to_string()], 3);
    game.on_connect(1);
    game.on_connect(2);
    assert_eq!(game.client_message(1, "team").unwrap().data, b"3\n3 3\n");
    assert_eq!(game.client_message(1, "Connect_nbr").unwrap().data, b"2\n");
    assert_eq!(game.client_message(2, "team").unwrap().data, b"2\n3 3\n");
    assert_eq!(game.client_message(1, "Connect_nbr").unwrap().data, b"1\n");
}

#[test]
fn disconnect_frees_a_slot_and_tells_the_observers() {
    let mut game = empty_game(3, 3, vec!["team".to_string()], 2);
    game.on_connect(1);
    game.on_connect(9);
    game.client_message(9, "GRAPHIC");
    game.client_message(1, "team");
    game.tick();
    game.client_disconnect(1);
    assert_eq!(game.players()[0].raw_fd(), -1);
    let replies = game.tick();
    assert!(replies[&9].contains("pdi #0\n"));
    game.on_connect(2);
    assert_eq!(game.client_message(2, "team").unwrap().data, b"2\n3 3\n");
}

#[test]
fn every_resource_name_reads_back() {
    for i in 0..7 {
        let resource = Resource::from_index(i);
        let take = parse(&format!("Take {}", resource.name())).unwrap();
        assert_eq!(take.kind(), EAction::Take(resource));
        assert_eq!(take.timeleft(), 7);
        let set = parse(&format!("Set {}", resource.name())).unwrap();
        assert_eq!(set.kind(), EAction::Place(resource));
    }
    assert_eq!(parse("Take gold").unwrap_err(), "KO");
    assert_eq!(parse("").unwrap_err(), "Empty packet");
}

#[test]
fn parsed_durations_follow_the_protocol() {
    assert_eq!(parse("Look").unwrap().timeleft(), 7);
    assert_eq!(parse("Inventory").unwrap().timeleft(), 1);
    assert_eq!(parse("Fork").unwrap().timeleft(), 42);
    assert_eq!(parse("Incantation").unwrap().timeleft(), 300);
    assert_eq!(
        parse("Broadcast a b").unwrap().kind(),
        EAction::Broadcast("a b".to_string())
    );
}

#[test]
fn depleting_removes_at_most_what_lies_on_the_map() {
    let mut map = WorldMap::new(10, 10);
    map.populate();
    assert_eq!(map.deplete(Resource::Food, 1000), 50);
    assert_eq!(map.count(Resource::Food), 0);
    assert_eq!(map.count(Resource::Linemate), 30);
}

#[test]
fn targets_follow_the_densities() {
    assert_eq!(max_for(100, Resource::Food), 50);
    assert_eq!(max_for(100, Resource::Phiras), 8);
    assert_eq!(max_for(1, Resource::Thystame), 1);
    assert_eq!(max_for(1764, Resource::Deraumere), 264);
    let map = WorldMap::new(42, 42);
    assert_eq!(map.max_resources(Resource::Linemate), 529);
    assert_eq!(Resource::Mendiane.get_density(), 10);
}

#[test]
fn turning_right_then_left_gives_back_the_direction() {
    let mut entity = Entity::new_dummy();
    assert_eq!(entity.direction(), Direction::South);
    entity.rotate(Rotation::Right);
    assert_eq!(entity.direction(), Direction::West);
    entity.rotate(Rotation::Left);
    assert_eq!(entity.direction(), Direction::South);
    for _ in 0..4 {
        entity.rotate(Rotation::Left);
    }
    assert_eq!(entity.direction(), Direction::South);
}

#[test]
fn starved_player_leaves_and_the_others_are_renumbered() {
    let mut game = empty_game(3, 3, vec!["team".to_string()], 5);
    let first = game.add_players() as usize;
    let second = game.add_players() as usize;
    game.player_mut(first).set_raw_fd(3);
    game.player_mut(second).set_raw_fd(4);
    game.player_mut(first).set_saturation(0);
    let replies = game.tick();
    assert_eq!(replies[&3], "dead\n");
    assert_eq!(game.players().len(), 1);
    assert_eq!(game.players()[0].get_id(), 0);
    assert_eq!(game.players()[0].raw_fd(), 4);
}

#[test]
fn hungry_player_eats_one_food() {
    let mut game = empty_game(3, 3, vec!["team".to_string()], 5);
    let player = game.add_players() as usize;
    game.player_mut(player).set_saturation(0);
    game.player_mut(player).inventory_mut()[0] = 2;
    game.tick();
    assert_eq!(game.players()[player].inventory()[0], 1);
    assert_eq!(game.players()[player].get_saturation(), 126);
}

#[test]
fn frozen_player_refuses_commands_during_elevation() {
    let mut game = empty_game(3, 3, vec!["team".to_string()], 5);
    game.on_connect(5);
    game.client_message(5, "team");
    let position = game.players()[0].position();
    game.map_mut().put(position, Resource::Linemate);
    assert_eq!(
        game.client_message(5, "Incantation").unwrap().data,
        b"Elevation underway\n"
    );
    assert_eq!(game.client_message(5, "Forward").unwrap().data, b"ko\n");
}

#[test]
fn elevation_without_the_items_is_refused() {
    let mut game = empty_game(3, 3, vec!["team".to_string()], 5);
    game.on_connect(5);
    game.client_message(5, "team");
    assert_eq!(game.client_message(5, "Incantation").unwrap().data, b"ko\n");
}

#[test]
fn completed_elevation_consumes_the_required_items() {
    let mut game = empty_game(3, 3, vec!["team".to_string()], 5);
    let player = game.add_players() as usize;
    game.player_mut(player).set_raw_fd(6);
    let position = game.players()[player].position();
    game.map_mut().put(position, Resource::Linemate);
    game.map_mut().put(position, Resource::Linemate);
    assert_eq!(game.finish_incantation(position, 1, &[0]), "Current level: 2\n");
    assert_eq!(game.count(Resource::Linemate), 1);
    assert_eq!(game.players()[player].level(), 2);
    assert_eq!(game.finish_incantation(position, 1, &[0]), "ko\n");
}

#[test]
fn graphical_client_gets_player_positions() {
    let mut game = empty_game(3, 3, vec!["team".to_string()], 5);
    game.on_connect(9);
    game.client_message(9, "GRAPHIC");
    game.on_connect(1);
    game.client_message(1, "team");
    let reply = game.client_message(9, "ppo #0").unwrap();
    assert_eq!(reply.data, b"ppo #0 0 0 3\n");
    let reply = game.client_message(9, "plv #0").unwrap();
    assert_eq!(reply.data, b"plv #0 1\n");
    let reply = game.client_message(9, "sst 50").unwrap();
    assert_eq!(reply.data, b"sst 50\n");
    let reply = game.client_message(9, "sgt").unwrap();
    assert_eq!(reply.data, b"sgt 50\n");
    let reply = game.client_message(9, "nope").unwrap();
    assert_eq!(reply.data, b"suc\n");
}

#[test]
fn fork_lays_an_egg_that_a_late_player_hatches_from() {
    let mut game = empty_game(4, 4, vec!["team".to_string()], 1);
    game.on_connect(1);
    game.client_message(1, "team");
    game.player_mut(0).set_position(Position { x: 2, y: 3 });
    game.client_message(1, "Fork");
    for _ in 0..42 {
        game.tick();
    }
    game.on_connect(2);
    assert_eq!(game.client_message(2, "team").unwrap().data, b"1\n4 4\n");
    assert_eq!(game.players()[1].position(), Position { x: 2, y: 3 });
}

#[test]
fn text_helpers_write_and_read_numbers() {
    assert_eq!(dec_string(0), "0");
    assert_eq!(dec_string(1234), "1234");
    assert_eq!(parse_bounded("42", 100), Some(42));
    assert_eq!(parse_bounded("+7", 100), Some(7));
    assert_eq!(parse_bounded("101", 100), None);
    assert_eq!(parse_bounded("4a", 100), None);
    let words = split_words("  bct 1\t2 ");
    assert_eq!(words, vec!["bct", "1", "2"]);
    assert_eq!(join_strings(&words, ","), "bct,1,2");
}

#[test]
fn tile_value_follows_its_first_item() {
    let mut map = WorldMap::new(2, 2);
    assert_eq!(map.get(0, 0).get_value(), 0);
    map.put(Position { x: 0, y: 0 }, Resource::Phiras);
    map.put(Position { x: 0, y: 0 }, Resource::Food);
    assert_eq!(map.get(0, 0).get_value(), 13);
    assert_eq!(map.get(2, 2).get_value(), 13);
    let copy = map.get(0, 0).clone();
    assert!(map.get_mut(-2, 0).eq(copy));
    assert!(!Tile::new_empty().eq(map.get(0, 0).clone()));
}

#[test]
fn stored_reply_is_read_back() {
    let mut entity = Entity::new_dummy();
    entity.set_reply("hello".to_string());
    assert_eq!(entity.get_reply(String::new()), "hello");
}

#[test]
fn tickrate_is_the_frequency() {
    let game = Game::new_with_frequency(3, 3, vec!["team".to_string()], 5, 250);
    assert_eq!(game.tickrate(), Some(250));
    let game = Game::new(3, 3, vec!["team".to_string()], 5);
    assert_eq!(game.tickrate(), Some(100));
}

#[test]
fn eject_pushes_the_others_one_tile_ahead() {
    let mut game = empty_game(3, 3, vec!["team".to_string()], 5);
    let source = game.add_players() as usize;
    let target = game.add_players() as usize;
    game.player_mut(source).set_raw_fd(41);
    game.player_mut(target).set_raw_fd(42);
    game.player_mut(source).add_action(Action::new_eject());
    let mut replies = game.tick();
    for _ in 0..6 {
        replies = game.tick();
    }
    assert_eq!(replies[&41], "ok\n");
    assert_eq!(replies[&42], "eject: 5\n");
    assert_eq!(game.players()[target].position(), Position { x: 0, y: -1 });

    game.player_mut(target).add_action(Action::new_eject());
    game.player_mut(source).set_position(Position { x: 2, y: 2 });
    let mut replies = game.tick();
    for _ in 0..6 {
        replies = game.tick();
    }
    assert_eq!(replies[&42], "ko\n");
}

fn look_scene() -> (Game, usize) {
    let mut game = empty_game(5, 5, vec!["team".to_string()], 5);
    let viewer = game.add_players() as usize;
    let other = game.add_players() as usize;
    game.player_mut(viewer).set_position(Position { x: 2, y: 2 });
    game.player_mut(other).set_position(Position { x: 2, y: 3 });
    game.map_mut().put(Position { x: 1, y: 3 }, Resource::Linemate);
    game.map_mut().put(Position { x: 3, y: 3 }, Resource::Food);
    game.map_mut().put(Position { x: 3, y: 1 }, Resource::Sibur);
    game.map_mut().put(Position { x: 1, y: 1 }, Resource::Phiras);
    (game, viewer)
}

#[test]
fn look_follows_each_orientation() {
    let (mut game, viewer) = look_scene();
    assert_eq!(game.look(viewer), "[player,sibur,,phiras]\n");
    game.player_mut(viewer).rotate(Rotation::Left);
    assert_eq!(game.players()[viewer].direction(), Direction::Est);
    assert_eq!(game.look(viewer), "[player,food,,sibur]\n");
    game.player_mut(viewer).rotate(Rotation::Left);
    assert_eq!(game.players()[viewer].direction(), Direction::North);
    assert_eq!(game.look(viewer), "[player,linemate,player,food]\n");
    game.player_mut(viewer).rotate(Rotation::Left);
    assert_eq!(game.players()[viewer].direction(), Direction::West);
    assert_eq!(game.look(viewer), "[player,phiras,,linemate]\n");
}

#[test]
fn look_lists_players_then_items_on_a_tile() {
    let (mut game, viewer) = look_scene();
    game.map_mut().put(Position { x: 2, y: 2 }, Resource::Food);
    game.map_mut().put(Position { x: 2, y: 2 }, Resource::Thystame);
    game.player_mut(1).set_position(Position { x: 7, y: -3 });
    assert_eq!(game.look(viewer), "[player player food thystame,sibur,,phiras]\n");
}

fn command_line(args: &[&str]) -> Vec<String> {
    std::iter::once("zappy_server".to_string())
        .chain(args.iter().map(|s| s.to_string()))
        .collect()
}

#[test]
fn readme_launch_line_gives_the_frequency_with_t() {
    let config = zappy::config::parse_args(command_line(&[
        "-p", "4242", "-x", "20", "-y", "20", "-n", "Team1", "Team2", "-c", "6", "-t", "100",
    ]))
    .unwrap();
    assert_eq!(
        config,
        zappy::config::ServerConfig {
            port: 4242,
            width: 20,
            height: 20,
            teams: vec!["Team1".to_string(), "Team2".to_string()],
            clients_per_team: 6,
            frequency: 100,
        }
    );
}

#[test]
fn t_flag_values_are_checked_like_f() {
    assert_eq!(
        parse_args(command_line(&["-t", "0"])).unwrap_err(),
        ConfigError::InvalidValue { flag: "-t", value: "0".to_string() }
    );
    assert_eq!(
        parse_args(command_line(&["-t"])).unwrap_err(),
        ConfigError::MissingValue { flag: "-t" }
    );
    assert_eq!(
        parse_args(command_line(&["-p", "1", "-x", "1", "-y", "1", "-n", "a", "-c", "1"])).unwrap_err(),
        ConfigError::MissingFlag("-f")
    );
}

#[test]
fn a_chunk_of_input_is_handled_line_by_line() {
    let mut game = empty_game(3, 3, vec!["team".to_string()], 5);
    game.on_connect(4);
    let (answer, close) = game.client_chunk(4, "team\n\nConnect_nbr\nForward\n");
    assert_eq!(answer, b"5\n3 3\n4\n");
    assert!(!close);
    assert_eq!(game.players()[0].actions.len(), 1);

    game.on_connect(5);
    let (answer, close) = game.client_chunk(5, "nobody\nteam\n");
    assert_eq!(answer, b"ko\n");
    assert!(close);
}

#[test]
fn a_tick_is_due_after_one_period() {
    assert_eq!(tick_period_ms(100), 10);
    assert_eq!(tick_period_ms(3), 333);
    assert!(!tick_due(10_000_000, 100));
    assert!(tick_due(10_000_001, 100));
    assert!(tick_due(1, 2000));
}

#[test]
fn a_second_refill_places_nothing() {
    let mut map = WorldMap::new(10, 10);
    map.populate();
    map.deplete(Resource::Food, 12);
    map.deplete(Resource::Sibur, 3);
    assert_eq!(map.refill().len(), 15);
    assert_eq!(map.refill().len(), 0);
}
