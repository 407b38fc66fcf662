//! Ingestion-bus behavior: many concurrent producers, one consumer, FIFO
//! per producer.  The bus is the same multi-producer channel the server's
//! transports publish into; the consumer drains it and routes each message
//! through the mapper.

use crossbeam::channel;
use effectserver2_rs::client::{encode_message, LightParam};
use effectserver2_rs::config::{Host, Light, Mapping, Root, Server};
use effectserver2_rs::mapper::Mapper;

const PER_PRODUCER: u8 = 50;

fn make_root() -> Root {
    Root {
        server: Server {
            udp_addr: "127.0.0.1:9909".to_string(),
            web_addr: "127.0.0.1:8080".to_string(),
            websocket_addr: "127.0.0.1:8081".to_string(),
        },
        hosts: vec![("dmx".to_string(), Host::Enttec { path: None })],
        mapping: Mapping {
            lights: vec![
                (1, Light::Rgb { host: "dmx".to_string(), address: 0, name: None }),
                (2, Light::Rgb { host: "dmx".to_string(), address: 5, name: None }),
                (3, Light::Rgb { host: "dmx".to_string(), address: 100, name: None }),
            ],
        },
    }
}

#[test]
fn per_producer_fifo_and_nothing_lost() {
    let (sender, receiver) = channel::unbounded::<(u8, Vec<u8>)>();

    crossbeam::scope(|scope| {
        for producer in [1u8, 2, 3] {
            let tx = sender.clone();
            scope.spawn(move |_| {
                for seq in 0..PER_PRODUCER {
                    let msg = encode_message(&[112], &[LightParam::new(producer, seq, 0, 0)]);
                    tx.send((producer, msg)).expect("consumer gone");
                }
            });
        }
        drop(sender);

        let (mut mapper, _rx) = Mapper::from_config(&make_root()).unwrap();
        let mut next_expected: [u8; 4] = [0; 4];
        let mut received: [u32; 4] = [0; 4];
        while let Ok((producer, data)) = receiver.recv() {
            // Per-producer FIFO: each producer's messages arrive in its own
            // send order, whatever the interleaving across producers.
            let mut parser = effectserver2_rs::parser::CommandParser::new();
            parser.read_from(&data).unwrap();
            match &parser.cmds[1] {
                effectserver2_rs::parser::Command::RgbLight { id, red, .. } => {
                    assert_eq!(*id, producer);
                    assert_eq!(*red, next_expected[producer as usize]);
                },
                _ => panic!("expected a light frame"),
            }
            next_expected[producer as usize] += 1;
            received[producer as usize] += 1;
            mapper.take_msg(&data, None).unwrap();
        }

        // The bus dropped nothing: every producer's full run was observed.
        assert_eq!(&received[1..], &[PER_PRODUCER as u32; 3]);

        // The consumer saw each producer's tail last: the lights hold the
        // final sequence numbers.
        let status = mapper.get_status_message();
        for light in &status.lights {
            assert_eq!(light.r, PER_PRODUCER - 1);
        }
    })
    .unwrap();
}
